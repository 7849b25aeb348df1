//! The image-program virtual machine of the Quilt language: a program is an
//! image, the hue of each pixel an instruction or a number, and the path of
//! a cursor across the image the flow of control.

use vstd::prelude::*;

pub mod direction;
pub mod editor;
pub mod hsl;
pub mod instruction;
pub mod matrix;
pub mod navigator;
pub mod parser;
pub mod pixel;
pub mod vm;

pub use direction::Direction;
pub use hsl::Hsl;
pub use instruction::{Condition, Instruction};
pub use matrix::{Matrix, MatrixPoint};
pub use parser::ParseError;
pub use pixel::Pixel;
pub use vm::{Fault, VM};

verus! {

/// What running the image that `bytes` encode gives: the bytes written and
/// the fault that ended the run, if one did within `steps` cycles; or why
/// the image is no program.
pub open spec fn run_spec(bytes: Seq<u8>, pixel_size: u32, steps: nat) -> Result<
    (Seq<u8>, Option<Fault>),
    ParseError,
> {
    match parser::pixels_spec(bytes, pixel_size) {
        Ok(cells) => {
            let program = parser::rows_of(cells);
            let start = vm::Machine { pc: navigator::entry_point(program), ..vm::fresh() };
            let end = vm::run_spec(program, start, steps);
            Ok((end.0.output, end.1))
        },
        Err(error) => Err(error),
    }
}

/// Decodes the image that `bytes` encode, takes one cell of each block of
/// `pixel_size` by `pixel_size` pixels, and runs the program on a fresh
/// machine until a cycle faults or `max_steps` cycles have run. Returns what
/// the program wrote, with the fault that ended the run.
pub fn run(bytes: &[u8], pixel_size: u32, max_steps: u64) -> (r: Result<
    (Vec<u8>, Option<Fault>),
    ParseError,
>)
    ensures
        match run_spec(bytes@, pixel_size, max_steps as nat) {
            Ok((written, fault)) => r.is_ok() && r.unwrap().0@ == written && r.unwrap().1 == fault,
            Err(error) => r == Err::<(Vec<u8>, Option<Fault>), ParseError>(error),
        },
{
    let cells = match parser::pixels(bytes, pixel_size) {
        Ok(cells) => cells,
        Err(error) => {
            return Err(error);
        },
    };
    let program = parser::parse(cells);
    let mut vm = VM::new();
    let fault = vm.execute(program, max_steps);
    Ok((vm.take_output(), fault))
}

} // verus!
