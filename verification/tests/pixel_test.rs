use quilt_lang::hsl::Hsl;
use quilt_lang::instruction::{Condition, Instruction};
use quilt_lang::matrix::MatrixPoint;
use quilt_lang::pixel::{Pixel, START};

fn pixel_of(hue: u16) -> Pixel {
    Pixel::new(Hsl { h: hue, s: 100, l: 50 }, MatrixPoint(3, 4))
}

#[test]
fn test_every_band_gives_its_opcode() {
    let bands = [
        (0, Instruction::PushA),
        (18, Instruction::PopUntil),
        (36, Instruction::Push),
        (54, Instruction::Save),
        (72, Instruction::MovA),
        (90, Instruction::PopA),
        (108, Instruction::Add),
        (126, Instruction::Sub),
        (144, Instruction::Mult),
        (162, Instruction::Div),
        (180, Instruction::Road),
        (198, Instruction::LeftShift),
        (216, Instruction::RightShift),
        (234, Instruction::And),
        (252, Instruction::Or),
        (270, Instruction::Not),
        (288, Instruction::Xor),
        (306, Instruction::Output),
        (324, Instruction::OutputUntil),
        (342, Instruction::Modulo),
    ];
    for (first, instruction) in bands {
        for hue in first..=first + 8 {
            assert_eq!(pixel_of(hue).as_instruction(), instruction);
        }
    }
}

#[test]
fn test_hues_between_the_bands_give_nothing() {
    for first in (9..360).step_by(18) {
        for hue in first..first + 9 {
            if hue != 300 {
                assert_eq!(pixel_of(hue).as_instruction(), Instruction::Nop);
            }
        }
    }
    for hue in [360, 361, 1000, u16::MAX] {
        assert_eq!(pixel_of(hue).as_instruction(), Instruction::Nop);
    }
}

#[test]
fn test_start_is_one_hue() {
    assert_eq!(START, 300);
    assert_eq!(pixel_of(300).as_instruction(), Instruction::Start);
    assert_eq!(pixel_of(299).as_instruction(), Instruction::Nop);
    assert_eq!(pixel_of(301).as_instruction(), Instruction::Nop);
}

#[test]
fn test_conditions() {
    for hue in 0..=400u16 {
        let expected = match hue {
            0..=8 => Condition::NotEqual,
            72..=80 => Condition::Less,
            144..=152 => Condition::LessEqual,
            216..=224 => Condition::Greater,
            288..=296 => Condition::GreaterEqual,
            _ => Condition::Equal,
        };
        assert_eq!(pixel_of(hue).as_condition(), expected);
    }
    assert_eq!(pixel_of(9).as_condition(), Condition::Equal);
    assert_eq!(pixel_of(71).as_condition(), Condition::Equal);
    assert_eq!(pixel_of(81).as_condition(), Condition::Equal);
}

#[test]
fn test_value_and_data_are_the_hue() {
    let p = pixel_of(123);
    assert_eq!(p.value(), 123);
    assert_eq!(p.as_data(), 123);
    assert_eq!(p.point, MatrixPoint(3, 4));
    assert_eq!(p.hsl, Hsl { h: 123, s: 100, l: 50 });
}

#[test]
fn test_takes_arg() {
    assert!(Instruction::Push.takes_arg());
    assert!(Instruction::Save.takes_arg());
    assert!(Instruction::MovA.takes_arg());
    for instruction in [
        Instruction::PushA,
        Instruction::PopUntil,
        Instruction::PopA,
        Instruction::Pop,
        Instruction::Add,
        Instruction::Road,
        Instruction::Output,
        Instruction::OutputUntil,
        Instruction::Start,
        Instruction::Nop,
    ] {
        assert!(!instruction.takes_arg());
    }
}
