//! Opcodes and condition codes, and the hue bands that encode them.

use vstd::prelude::*;

verus! {

/// What a cell of the program asks the machine to do.
#[derive(Clone, Copy, Debug, PartialEq, Eq, Structural)]
pub enum Instruction {
    /// Push `tape[A]`.
    PushA,
    /// Pop until a zero has been popped.
    PopUntil,
    /// Push the operand.
    Push,
    /// Store the operand at `tape[A]`.
    Save,
    /// Load register A with the operand.
    MovA,
    /// Pop into register A.
    PopA,
    /// Pop and discard.
    Pop,
    Add,
    Sub,
    Mult,
    Div,
    /// A route marker: no effect on the machine, but it attracts the cursor.
    Road,
    LeftShift,
    RightShift,
    And,
    Or,
    Not,
    Xor,
    /// Pop one value and write its low byte.
    Output,
    /// Pop and write low bytes until a zero has been popped.
    OutputUntil,
    Modulo,
    /// The entry point.
    Start,
    /// Any hue outside the bands.
    Nop,
}

/// The comparison a cell stands for when it is read as a predicate.
#[derive(Clone, Copy, Debug, PartialEq, Eq, Structural)]
pub enum Condition {
    NotEqual,
    Less,
    LessEqual,
    Greater,
    GreaterEqual,
    Equal,
}

/// The opcode that a hue encodes: the table of bands.
pub open spec fn instruction_at(hue: u16) -> Instruction {
    if hue <= 8 {
        Instruction::PushA
    } else if 18 <= hue <= 26 {
        Instruction::PopUntil
    } else if 36 <= hue <= 44 {
        Instruction::Push
    } else if 54 <= hue <= 62 {
        Instruction::Save
    } else if 72 <= hue <= 80 {
        Instruction::MovA
    } else if 90 <= hue <= 98 {
        Instruction::PopA
    } else if 108 <= hue <= 116 {
        Instruction::Add
    } else if 126 <= hue <= 134 {
        Instruction::Sub
    } else if 144 <= hue <= 152 {
        Instruction::Mult
    } else if 162 <= hue <= 170 {
        Instruction::Div
    } else if 180 <= hue <= 188 {
        Instruction::Road
    } else if 198 <= hue <= 206 {
        Instruction::LeftShift
    } else if 216 <= hue <= 224 {
        Instruction::RightShift
    } else if 234 <= hue <= 242 {
        Instruction::And
    } else if 252 <= hue <= 260 {
        Instruction::Or
    } else if 270 <= hue <= 278 {
        Instruction::Not
    } else if 288 <= hue <= 296 {
        Instruction::Xor
    } else if hue == 300 {
        Instruction::Start
    } else if 306 <= hue <= 314 {
        Instruction::Output
    } else if 324 <= hue <= 332 {
        Instruction::OutputUntil
    } else if 342 <= hue <= 350 {
        Instruction::Modulo
    } else {
        Instruction::Nop
    }
}

/// The condition code that a hue encodes.
pub open spec fn condition_at(hue: u16) -> Condition {
    if hue <= 8 {
        Condition::NotEqual
    } else if 72 <= hue <= 80 {
        Condition::Less
    } else if 144 <= hue <= 152 {
        Condition::LessEqual
    } else if 216 <= hue <= 224 {
        Condition::Greater
    } else if 288 <= hue <= 296 {
        Condition::GreaterEqual
    } else {
        Condition::Equal
    }
}

/// The opcode of the `k`-th band, counted from hue 0.
pub open spec fn band_instruction(k: int) -> Instruction {
    if k == 0 {
        Instruction::PushA
    } else if k == 1 {
        Instruction::PopUntil
    } else if k == 2 {
        Instruction::Push
    } else if k == 3 {
        Instruction::Save
    } else if k == 4 {
        Instruction::MovA
    } else if k == 5 {
        Instruction::PopA
    } else if k == 6 {
        Instruction::Add
    } else if k == 7 {
        Instruction::Sub
    } else if k == 8 {
        Instruction::Mult
    } else if k == 9 {
        Instruction::Div
    } else if k == 10 {
        Instruction::Road
    } else if k == 11 {
        Instruction::LeftShift
    } else if k == 12 {
        Instruction::RightShift
    } else if k == 13 {
        Instruction::And
    } else if k == 14 {
        Instruction::Or
    } else if k == 15 {
        Instruction::Not
    } else if k == 16 {
        Instruction::Xor
    } else if k == 17 {
        Instruction::Output
    } else if k == 18 {
        Instruction::OutputUntil
    } else if k == 19 {
        Instruction::Modulo
    } else {
        Instruction::Nop
    }
}

impl Instruction {
    /// Whether the opcode is followed by an operand cell.
    pub open spec fn spec_takes_arg(&self) -> bool {
        *self == Instruction::Push || *self == Instruction::MovA || *self == Instruction::Save
    }

    /// Whether the opcode is followed by an operand cell.
    #[verifier::when_used_as_spec(spec_takes_arg)]
    pub fn takes_arg(&self) -> (r: bool)
        ensures
            r == self.spec_takes_arg(),
    {
        matches!(self, Self::Push | Self::MovA | Self::Save)
    }
}

/// Every band starts at a multiple of 18 and is nine hues wide: a hue below
/// 360 whose remainder by 18 is at most 8 encodes the opcode of band
/// `hue / 18`; 300 alone encodes `Start`; every other hue encodes nothing.
pub proof fn lemma_bands(hue: u16)
    ensures
        hue < 360 && hue % 18 <= 8 ==> instruction_at(hue) == band_instruction(hue as int / 18),
        hue == 300 ==> instruction_at(hue) == Instruction::Start,
        hue != 300 && (hue >= 360 || hue % 18 > 8) ==> instruction_at(hue) == Instruction::Nop,
{
}

} // verus!
