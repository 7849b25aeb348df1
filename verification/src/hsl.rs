//! Colours in hue, saturation and lightness, computed from RGB samples in
//! integer arithmetic.

use vstd::prelude::*;
use vstd::arithmetic::div_mod::{lemma_fundamental_div_mod, lemma_mod_bound};

verus! {

/// A colour: hue in degrees, saturation and lightness in percent.
#[derive(Clone, Copy, Debug, PartialEq, Eq, Structural)]
pub struct Hsl {
    pub h: u16,
    pub s: u8,
    pub l: u8,
}

/// `a / b` rounded to the nearest integer, a half rounded up.
pub open spec fn round_div(a: int, b: int) -> int {
    (2 * a + b) / (2 * b)
}

/// The largest of three samples.
pub open spec fn max3(r: int, g: int, b: int) -> int {
    if r >= g && r >= b {
        r
    } else if g >= b {
        g
    } else {
        b
    }
}

/// The smallest of three samples.
pub open spec fn min3(r: int, g: int, b: int) -> int {
    if r <= g && r <= b {
        r
    } else if g <= b {
        g
    } else {
        b
    }
}

/// The hue angle in degrees, multiplied by `max - min`: the sector of the
/// largest channel, plus sixty degrees times the signed share of the other
/// two, brought into `[0, 360)`.
pub open spec fn hue_angle_scaled(r: int, g: int, b: int) -> int {
    let d = max3(r, g, b) - min3(r, g, b);
    if max3(r, g, b) == r {
        if g >= b {
            60 * (g - b)
        } else {
            360 * d - 60 * (b - g)
        }
    } else if max3(r, g, b) == g {
        120 * d + 60 * (b - r)
    } else {
        240 * d + 60 * (r - g)
    }
}

/// The hue of an RGB sample, in whole degrees in `[0, 360)`; 0 for a grey.
pub open spec fn hue_of(r: int, g: int, b: int) -> int {
    let d = max3(r, g, b) - min3(r, g, b);
    if d == 0 {
        0
    } else {
        round_div(hue_angle_scaled(r, g, b), d) % 360
    }
}

/// The lightness of an RGB sample in percent: the mean of the largest and
/// the smallest channel.
pub open spec fn lightness_of(r: int, g: int, b: int) -> int {
    round_div(100 * (max3(r, g, b) + min3(r, g, b)), 510)
}

/// What the spread of the channels is divided by to give the saturation:
/// `255 - |max + min - 255|`.
pub open spec fn saturation_span(r: int, g: int, b: int) -> int {
    let sum = max3(r, g, b) + min3(r, g, b);
    if sum <= 255 {
        sum
    } else {
        510 - sum
    }
}

/// The saturation of an RGB sample in percent; 0 for a grey.
pub open spec fn saturation_of(r: int, g: int, b: int) -> int {
    let d = max3(r, g, b) - min3(r, g, b);
    if d == 0 {
        0
    } else {
        round_div(100 * d, saturation_span(r, g, b))
    }
}

/// The colour of an RGB sample.
pub open spec fn hsl_of(r: u8, g: u8, b: u8) -> Hsl {
    Hsl {
        h: hue_of(r as int, g as int, b as int) as u16,
        s: saturation_of(r as int, g as int, b as int) as u8,
        l: lightness_of(r as int, g as int, b as int) as u8,
    }
}

/// The unit in which `to_rgb` counts: a channel at full strength.
pub const FULL: u32 = 1_200_000;

/// The chroma of a colour, in ten-thousandths: `(1 - |2l - 1|) s`.
pub open spec fn chroma(s: int, l: int) -> int {
    if 2 * l <= 100 {
        2 * l * s
    } else {
        (200 - 2 * l) * s
    }
}

/// The strength of the strongest channel above the weakest, in units of
/// which `FULL` make a whole.
pub open spec fn strong(s: int, l: int) -> int {
    120 * chroma(s, l)
}

/// The strength of the middle channel above the weakest: the chroma times
/// `1 - |h / 60 mod 2 - 1|`.
pub open spec fn middle(h: int, s: int, l: int) -> int {
    if h % 120 <= 60 {
        2 * (h % 120) * chroma(s, l)
    } else {
        2 * (120 - h % 120) * chroma(s, l)
    }
}

/// The strength of the weakest channel: the lightness less half the chroma.
pub open spec fn weak(s: int, l: int) -> int {
    12000 * l - 60 * chroma(s, l)
}

/// A strength as a sample, rounded to the nearest of `0..=255`.
pub open spec fn sample_of(strength: int) -> int {
    round_div(255 * strength, FULL as int)
}

/// The RGB samples of a colour with hue `h` below 360 and with saturation
/// `s` and lightness `l` no more than 100: in each sixth of the circle one
/// channel is the strongest, one the weakest, and the third between them.
pub open spec fn rgb_of(h: int, s: int, l: int) -> (int, int, int) {
    let high = sample_of(strong(s, l) + weak(s, l));
    let mid = sample_of(middle(h, s, l) + weak(s, l));
    let low = sample_of(weak(s, l));
    if h < 60 {
        (high, mid, low)
    } else if h < 120 {
        (mid, high, low)
    } else if h < 180 {
        (low, high, mid)
    } else if h < 240 {
        (low, mid, high)
    } else if h < 300 {
        (mid, low, high)
    } else {
        (high, low, mid)
    }
}

/// `round_div(a, b)` is the integer nearest to `a / b`: it lies within a
/// half of the quotient, and takes the upper of two nearest integers.
pub proof fn lemma_round_div_nearest(a: int, b: int)
    requires
        b > 0,
    ensures
        2 * b * round_div(a, b) - b <= 2 * a < 2 * b * round_div(a, b) + b,
{
    let q = round_div(a, b);
    lemma_fundamental_div_mod(2 * a + b, 2 * b);
    lemma_mod_bound(2 * a + b, 2 * b);
    assert((2 * b) * q == 2 * b * q) by (nonlinear_arith);
}

/// `round_div` maps `0..=k*b` into `0..=k`.
proof fn lemma_round_div_range(a: int, b: int, k: int)
    requires
        b > 0,
        0 <= a <= k * b,
    ensures
        0 <= round_div(a, b) <= k,
{
    let q = round_div(a, b);
    lemma_round_div_nearest(a, b);
    if q < 0 {
        assert(2 * b * q <= -2 * b) by (nonlinear_arith)
            requires
                q <= -1,
                b > 0,
        ;
    }
    if q > k {
        assert(2 * b * q >= 2 * b * (k + 1)) by (nonlinear_arith)
            requires
                q >= k + 1,
                b > 0,
        ;
        assert(2 * b * (k + 1) == 2 * (k * b) + 2 * b) by (nonlinear_arith);
    }
}

impl Hsl {
    /// The colour of an RGB sample.
    pub fn from_rgb(r: u8, g: u8, b: u8) -> (c: Hsl)
        ensures
            c == hsl_of(r, g, b),
            c.h == hue_of(r as int, g as int, b as int),
            c.s == saturation_of(r as int, g as int, b as int),
            c.l == lightness_of(r as int, g as int, b as int),
            c.h < 360,
            c.s <= 100,
            c.l <= 100,
    {
        let mx: u8 = if r >= g && r >= b {
            r
        } else if g >= b {
            g
        } else {
            b
        };
        let mn: u8 = if r <= g && r <= b {
            r
        } else if g <= b {
            g
        } else {
            b
        };
        let d: u32 = (mx - mn) as u32;
        let sum: u32 = mx as u32 + mn as u32;
        proof {
            lemma_round_div_range(100 * sum as int, 510, 100);
        }
        let l: u32 = (200 * sum + 510) / 1020;
        if d == 0 {
            return Hsl { h: 0, s: 0, l: l as u8 };
        }
        let scaled: u32 = if mx == r {
            if g >= b {
                60 * (g - b) as u32
            } else {
                360 * d - 60 * (b - g) as u32
            }
        } else if mx == g {
            if b >= r {
                120 * d + 60 * (b - r) as u32
            } else {
                120 * d - 60 * (r - b) as u32
            }
        } else {
            if r >= g {
                240 * d + 60 * (r - g) as u32
            } else {
                240 * d - 60 * (g - r) as u32
            }
        };
        let span: u32 = if sum <= 255 {
            sum
        } else {
            510 - sum
        };
        proof {
            assert(scaled == hue_angle_scaled(r as int, g as int, b as int));
            lemma_round_div_range(scaled as int, d as int, 360);
            lemma_round_div_range(100 * d as int, span as int, 100);
        }
        let h: u32 = ((2 * scaled + d) / (2 * d)) % 360;
        let s: u32 = (200 * d + span) / (2 * span);
        Hsl { h: h as u16, s: s as u8, l: l as u8 }
    }

    /// The RGB samples of the colour. A hue of 360 or more is taken as the
    /// hue a full turn or more back, a saturation or lightness beyond 100
    /// as 100.
    pub fn to_rgb(&self) -> (rgb: (u8, u8, u8))
        ensures
            (rgb.0 as int, rgb.1 as int, rgb.2 as int) == rgb_of(
                self.h as int % 360,
                if self.s > 100 {
                    100
                } else {
                    self.s as int
                },
                if self.l > 100 {
                    100
                } else {
                    self.l as int
                },
            ),
    {
        let h: u32 = (self.h % 360) as u32;
        let s: u32 = if self.s > 100 {
            100
        } else {
            self.s as u32
        };
        let l: u32 = if self.l > 100 {
            100
        } else {
            self.l as u32
        };
        let span: u32 = if 2 * l <= 100 {
            2 * l
        } else {
            200 - 2 * l
        };
        assert(span * s <= 10000) by (nonlinear_arith)
            requires
                span <= 100,
                s <= 100,
        ;
        let c: u32 = span * s;
        assert(c == chroma(s as int, l as int));
        assert(60 * c <= 12000 * l && 12000 * l + 60 * c <= FULL) by (nonlinear_arith)
            requires
                c == span * s,
                s <= 100,
                span <= 2 * l,
                span <= 200 - 2 * l,
                l <= 100,
                FULL == 1_200_000,
        ;
        let turn: u32 = h % 120;
        let lean: u32 = if turn <= 60 {
            turn
        } else {
            120 - turn
        };
        assert(2 * lean * c <= 120 * c) by (nonlinear_arith)
            requires
                lean <= 60,
        ;
        let weak: u32 = 12000 * l - 60 * c;
        let strong: u32 = 120 * c + weak;
        let middle: u32 = 2 * lean * c + weak;
        proof {
            lemma_round_div_range(255 * weak as int, FULL as int, 255);
            lemma_round_div_range(255 * middle as int, FULL as int, 255);
            lemma_round_div_range(255 * strong as int, FULL as int, 255);
        }
        let low: u8 = ((510 * weak + FULL) / (2 * FULL)) as u8;
        let mid: u8 = ((510 * middle + FULL) / (2 * FULL)) as u8;
        let high: u8 = ((510 * strong + FULL) / (2 * FULL)) as u8;
        if h < 60 {
            (high, mid, low)
        } else if h < 120 {
            (mid, high, low)
        } else if h < 180 {
            (low, high, mid)
        } else if h < 240 {
            (low, mid, high)
        } else if h < 300 {
            (mid, low, high)
        } else {
            (high, low, mid)
        }
    }
}

} // verus!
