//! A cell of the program: a colour and the place it has on the grid.

use vstd::prelude::*;
use crate::hsl::Hsl;
use crate::instruction::{condition_at, instruction_at, Condition, Instruction};
use crate::matrix::{grid_cell, MatrixPoint};

verus! {

/// The hue of the entry point.
pub const START: u16 = 300;

/// A cell of the program.
#[derive(Clone, Copy, Debug, PartialEq, Eq, Structural)]
pub struct Pixel {
    pub hsl: Hsl,
    pub point: MatrixPoint,
}

impl Pixel {
    pub fn new(hsl: Hsl, point: MatrixPoint) -> (p: Pixel)
        ensures
            p == (Pixel { hsl, point }),
    {
        Pixel { hsl, point }
    }

    /// The hue of the cell: all that the machine reads of it.
    pub open spec fn spec_value(&self) -> u16 {
        self.hsl.h
    }

    /// The opcode that the cell encodes.
    pub fn as_instruction(&self) -> (r: Instruction)
        ensures
            r == instruction_at(self.spec_value()),
    {
        match self.value() {
            0..=8 => Instruction::PushA,
            18..=26 => Instruction::PopUntil,
            36..=44 => Instruction::Push,
            54..=62 => Instruction::Save,
            72..=80 => Instruction::MovA,
            90..=98 => Instruction::PopA,
            108..=116 => Instruction::Add,
            126..=134 => Instruction::Sub,
            144..=152 => Instruction::Mult,
            162..=170 => Instruction::Div,
            180..=188 => Instruction::Road,
            198..=206 => Instruction::LeftShift,
            216..=224 => Instruction::RightShift,
            234..=242 => Instruction::And,
            252..=260 => Instruction::Or,
            270..=278 => Instruction::Not,
            288..=296 => Instruction::Xor,
            306..=314 => Instruction::Output,
            324..=332 => Instruction::OutputUntil,
            342..=350 => Instruction::Modulo,
            START => Instruction::Start,
            _ => Instruction::Nop,
        }
    }

    #[inline]
    #[verifier::when_used_as_spec(spec_value)]
    pub fn value(&self) -> (v: u16)
        ensures
            v == self.spec_value(),
    {
        self.hsl.h
    }

    /// The cell read as an operand: its hue, whatever opcode that hue would
    /// encode.
    pub fn as_data(&self) -> (v: u16)
        ensures
            v == self.spec_value(),
    {
        self.value()
    }

    /// The condition code that the cell encodes.
    pub fn as_condition(&self) -> (r: Condition)
        ensures
            r == condition_at(self.spec_value()),
    {
        match self.value() {
            0..=8 => Condition::NotEqual,
            72..=80 => Condition::Less,
            144..=152 => Condition::LessEqual,
            216..=224 => Condition::Greater,
            288..=296 => Condition::GreaterEqual,
            _ => Condition::Equal,
        }
    }
}

/// Whether a grid of cells is a program as an image gives it: every cell
/// knows its own place, and every hue lies below 360.
pub open spec fn well_formed(grid: Seq<Seq<Pixel>>) -> bool {
    forall|point: MatrixPoint|
        match #[trigger] grid_cell(grid, point) {
            Some(cell) => cell.point == point && cell.spec_value() < 360,
            None => true,
        }
}

} // verus!
