use quilt_lang::hsl::Hsl;

#[test]
fn test_pure_colours() {
    assert_eq!(Hsl::from_rgb(255, 0, 0), Hsl { h: 0, s: 100, l: 50 });
    assert_eq!(Hsl::from_rgb(255, 255, 0), Hsl { h: 60, s: 100, l: 50 });
    assert_eq!(Hsl::from_rgb(0, 255, 0), Hsl { h: 120, s: 100, l: 50 });
    assert_eq!(Hsl::from_rgb(0, 255, 255), Hsl { h: 180, s: 100, l: 50 });
    assert_eq!(Hsl::from_rgb(0, 0, 255), Hsl { h: 240, s: 100, l: 50 });
    assert_eq!(Hsl::from_rgb(255, 0, 255), Hsl { h: 300, s: 100, l: 50 });
}

#[test]
fn test_greys_have_hue_zero() {
    assert_eq!(Hsl::from_rgb(0, 0, 0), Hsl { h: 0, s: 0, l: 0 });
    assert_eq!(Hsl::from_rgb(255, 255, 255), Hsl { h: 0, s: 0, l: 100 });
    assert_eq!(Hsl::from_rgb(128, 128, 128), Hsl { h: 0, s: 0, l: 50 });
    assert_eq!(Hsl::from_rgb(51, 51, 51), Hsl { h: 0, s: 0, l: 20 });
}

#[test]
fn test_mixed_colours() {
    // 60 * (128 - 0) / 255 = 30.1
    assert_eq!(Hsl::from_rgb(255, 128, 0).h, 30);
    // 360 - 60 * 128 / 255 = 329.9
    assert_eq!(Hsl::from_rgb(255, 0, 128).h, 330);
    // 240 + 60 * (100 - 50) / 150 = 260
    assert_eq!(Hsl::from_rgb(100, 50, 200), Hsl { h: 260, s: 60, l: 49 });
    // 120 + 60 * (30 - 10) / 190 = 126.3
    assert_eq!(Hsl::from_rgb(10, 200, 30), Hsl { h: 126, s: 90, l: 41 });
}

#[test]
fn test_a_half_rounds_up() {
    // 60 * 1 / 8 = 7.5
    assert_eq!(Hsl::from_rgb(8, 1, 0).h, 8);
    // 60 * 1 / 40 = 1.5
    assert_eq!(Hsl::from_rgb(40, 1, 0).h, 2);
}

#[test]
fn test_hue_stays_below_360() {
    // 360 - 60 / 255 = 359.76 rounds to a full turn, which is hue 0.
    assert_eq!(Hsl::from_rgb(255, 0, 1).h, 0);
    for r in [0u8, 1, 127, 128, 254, 255] {
        for g in [0u8, 1, 127, 128, 254, 255] {
            for b in [0u8, 1, 127, 128, 254, 255] {
                let c = Hsl::from_rgb(r, g, b);
                assert!(c.h < 360);
                assert!(c.s <= 100);
                assert!(c.l <= 100);
            }
        }
    }
}

#[test]
fn test_pure_colours_come_back() {
    let pure = [
        (255, 0, 0),
        (255, 255, 0),
        (0, 255, 0),
        (0, 255, 255),
        (0, 0, 255),
        (255, 0, 255),
    ];
    for (r, g, b) in pure {
        assert_eq!(Hsl::from_rgb(r, g, b).to_rgb(), (r, g, b));
    }
    assert_eq!(Hsl { h: 0, s: 100, l: 50 }.to_rgb(), (255, 0, 0));
    assert_eq!(Hsl { h: 120, s: 100, l: 50 }.to_rgb(), (0, 255, 0));
    assert_eq!(Hsl { h: 240, s: 100, l: 50 }.to_rgb(), (0, 0, 255));
}

#[test]
fn test_to_rgb_of_greys_and_mixtures() {
    assert_eq!(Hsl { h: 0, s: 0, l: 0 }.to_rgb(), (0, 0, 0));
    assert_eq!(Hsl { h: 77, s: 0, l: 100 }.to_rgb(), (255, 255, 255));
    assert_eq!(Hsl { h: 200, s: 0, l: 50 }.to_rgb(), (128, 128, 128));
    assert_eq!(Hsl { h: 123, s: 100, l: 100 }.to_rgb(), (255, 255, 255));
    // Orange: the middle channel at half strength.
    assert_eq!(Hsl { h: 30, s: 100, l: 50 }.to_rgb(), (255, 128, 0));
    // chroma 0.48, weakest channel 0.4 - 0.24 = 0.16, middle 0.16 + 0.48 / 3
    assert_eq!(Hsl { h: 260, s: 60, l: 40 }.to_rgb(), (82, 41, 163));
}

#[test]
fn test_to_rgb_takes_any_field_values() {
    assert_eq!(Hsl { h: 360, s: 100, l: 50 }.to_rgb(), (255, 0, 0));
    assert_eq!(Hsl { h: 480, s: 200, l: 50 }.to_rgb(), (0, 255, 0));
    assert_eq!(Hsl { h: 10, s: 100, l: 255 }.to_rgb(), (255, 255, 255));
}

#[test]
fn test_every_hue_comes_back() {
    for h in 0..360u16 {
        let (r, g, b) = Hsl { h, s: 100, l: 50 }.to_rgb();
        assert_eq!(Hsl::from_rgb(r, g, b), Hsl { h, s: 100, l: 50 });
    }
}
