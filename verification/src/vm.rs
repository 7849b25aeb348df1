//! The machine: a stack, a tape, one index register and a cursor on the
//! program grid.

use vstd::prelude::*;
use crate::direction::Direction;
use crate::instruction::{instruction_at, Instruction};
use crate::matrix::{grid_contains, Matrix, MatrixPoint};
use crate::navigator::{
    advance, candidates, entry_point, find_entry, is_entry, lemma_advance_on_program,
    lemma_advance_stays_on_grid, navigate, next_pixels, route,
};
use crate::pixel::{well_formed, Pixel};

verus! {

/// The number of entries of the tape.
pub const TAPE_SIZE: usize = 360;

/// What ends a run.
#[derive(Clone, Copy, Debug, PartialEq, Eq, Structural)]
pub enum Fault {
    /// An instruction found fewer values on the stack than it pops.
    StackUnderflow,
    /// `Div` or `Modulo` with a divisor of zero.
    DivideByZero,
    /// The tape was addressed with register A at `TAPE_SIZE` or beyond.
    TapeOutOfRange,
    /// An instruction that takes an operand found no cell to read it from,
    /// or one whose hue is not below 360.
    InvalidOperand,
    /// The cursor has no neighbouring cell to move to.
    NoRoute,
}

impl Fault {
    /// The one-line diagnostic of the fault.
    pub open spec fn spec_message(&self) -> Seq<char> {
        match self {
            Fault::StackUnderflow => "stack empty"@,
            Fault::DivideByZero => "division by zero"@,
            Fault::TapeOutOfRange => "tape out of range"@,
            Fault::InvalidOperand => "no arg supplied"@,
            Fault::NoRoute => "no cell to move to"@,
        }
    }

    /// The one-line diagnostic of the fault.
    pub fn message(&self) -> (text: &'static str)
        ensures
            text@ == self.spec_message(),
    {
        match self {
            Fault::StackUnderflow => "stack empty",
            Fault::DivideByZero => "division by zero",
            Fault::TapeOutOfRange => "tape out of range",
            Fault::InvalidOperand => "no arg supplied",
            Fault::NoRoute => "no cell to move to",
        }
    }
}

/// The state of a machine as a mathematical value. The top of the stack is
/// its last element.
#[verifier::ext_equal]
pub struct Machine {
    pub stack: Seq<u16>,
    pub register_a: u16,
    pub tape: Seq<u16>,
    pub direction: Direction,
    pub pc: MatrixPoint,
    pub output: Seq<u8>,
}

/// The machine before anything has run: an empty stack, a tape of zeros,
/// register A at zero, the cursor in the top-left corner and heading east,
/// nothing written.
pub open spec fn fresh() -> Machine {
    Machine {
        stack: Seq::empty(),
        register_a: 0,
        tape: Seq::new(TAPE_SIZE as nat, |i: int| 0u16),
        direction: Direction::East,
        pc: MatrixPoint(0, 0),
        output: Seq::empty(),
    }
}

/// The low eight bits of a value.
pub open spec fn low_byte(value: u16) -> u8 {
    (value % 256) as u8
}

/// The result of an instruction that combines two values: `a` the deeper,
/// `b` the shallower. Sums, differences and products are taken modulo 2^16.
pub open spec fn binary(instruction: Instruction, a: u16, b: u16) -> u16 {
    match instruction {
        Instruction::Add => ((a + b) % 0x1_0000) as u16,
        Instruction::Sub => ((a - b) % 0x1_0000) as u16,
        Instruction::Mult => ((a * b) % 0x1_0000) as u16,
        Instruction::Div => a / b,
        Instruction::Modulo => a % b,
        Instruction::And => a & b,
        Instruction::Or => a | b,
        _ => a ^ b,
    }
}

/// The result of an instruction that transforms one value.
pub open spec fn unary(instruction: Instruction, a: u16) -> u16 {
    match instruction {
        Instruction::LeftShift => a << 1,
        Instruction::RightShift => a >> 1,
        _ => !a,
    }
}

/// Whether an instruction pops two values and pushes one.
pub open spec fn is_binary(instruction: Instruction) -> bool {
    matches!(
        instruction,
        Instruction::Add | Instruction::Sub | Instruction::Mult | Instruction::Div
            | Instruction::Modulo | Instruction::And | Instruction::Or | Instruction::Xor
    )
}

/// Whether an instruction pops one value and pushes one.
pub open spec fn is_unary(instruction: Instruction) -> bool {
    matches!(instruction, Instruction::LeftShift | Instruction::RightShift | Instruction::Not)
}

/// The number of values above the topmost zero of the stack; the height of
/// the stack where it holds no zero.
pub open spec fn run_length(stack: Seq<u16>) -> nat
    decreases stack.len(),
{
    if stack.len() == 0 || stack.last() == 0 {
        0
    } else {
        1 + run_length(stack.drop_last())
    }
}

/// The low bytes of the values above the topmost zero, from the top down.
pub open spec fn run_bytes(stack: Seq<u16>) -> Seq<u8> {
    Seq::new(run_length(stack), |i: int| low_byte(stack[stack.len() - 1 - i]))
}

/// The stack without its topmost zero and all above it; empty where it
/// holds no zero.
pub open spec fn below_run(stack: Seq<u16>) -> Seq<u16> {
    if run_length(stack) == stack.len() {
        Seq::empty()
    } else {
        stack.take(stack.len() - run_length(stack) - 1)
    }
}

/// Whether popping down to a zero succeeds: whether the stack holds one.
pub open spec fn run_result(stack: Seq<u16>) -> Result<(), Fault> {
    if run_length(stack) == stack.len() {
        Err(Fault::StackUnderflow)
    } else {
        Ok(())
    }
}

/// The operand that a cell supplies: its hue, where that is below 360.
pub open spec fn operand(arg: Option<Pixel>) -> Option<u16> {
    match arg {
        Some(pixel) => if pixel.spec_value() < 360 {
            Some(pixel.spec_value())
        } else {
            None
        },
        None => None,
    }
}

/// The effect of an instruction that pops two values and pushes one. The
/// values are popped before the divisor is looked at.
pub open spec fn binary_spec(s: Machine, instruction: Instruction) -> (Machine, Result<(), Fault>) {
    let n = s.stack.len() as int;
    if n == 0 {
        (s, Err(Fault::StackUnderflow))
    } else if n == 1 {
        (Machine { stack: s.stack.drop_last(), ..s }, Err(Fault::StackUnderflow))
    } else {
        let b = s.stack[n - 1];
        let a = s.stack[n - 2];
        let rest = s.stack.take(n - 2);
        if (instruction == Instruction::Div || instruction == Instruction::Modulo) && b == 0 {
            (Machine { stack: rest, ..s }, Err(Fault::DivideByZero))
        } else {
            (Machine { stack: rest.push(binary(instruction, a, b)), ..s }, Ok(()))
        }
    }
}

/// The effect of an instruction that pops one value and pushes one.
pub open spec fn unary_spec(s: Machine, instruction: Instruction) -> (Machine, Result<(), Fault>) {
    if s.stack.len() == 0 {
        (s, Err(Fault::StackUnderflow))
    } else {
        (
            Machine { stack: s.stack.drop_last().push(unary(instruction, s.stack.last())), ..s },
            Ok(()),
        )
    }
}

/// The effect of an instruction on the machine, and whether it faults.
/// `arg` is the operand, for the instructions that take one.
pub open spec fn execute_spec(s: Machine, instruction: Instruction, arg: Option<u16>) -> (
    Machine,
    Result<(), Fault>,
) {
    match instruction {
        Instruction::Road | Instruction::Start | Instruction::Nop => (s, Ok(())),
        Instruction::Push => match arg {
            Some(value) => (Machine { stack: s.stack.push(value), ..s }, Ok(())),
            None => (s, Err(Fault::InvalidOperand)),
        },
        Instruction::Save => match arg {
            Some(value) => if s.register_a < TAPE_SIZE {
                (Machine { tape: s.tape.update(s.register_a as int, value), ..s }, Ok(()))
            } else {
                (s, Err(Fault::TapeOutOfRange))
            },
            None => (s, Err(Fault::InvalidOperand)),
        },
        Instruction::MovA => match arg {
            Some(value) => (Machine { register_a: value, ..s }, Ok(())),
            None => (s, Err(Fault::InvalidOperand)),
        },
        Instruction::PushA => if s.register_a < TAPE_SIZE {
            (Machine { stack: s.stack.push(s.tape[s.register_a as int]), ..s }, Ok(()))
        } else {
            (s, Err(Fault::TapeOutOfRange))
        },
        Instruction::PopA => if s.stack.len() == 0 {
            (s, Err(Fault::StackUnderflow))
        } else {
            (Machine { stack: s.stack.drop_last(), register_a: s.stack.last(), ..s }, Ok(()))
        },
        Instruction::Pop => if s.stack.len() == 0 {
            (s, Err(Fault::StackUnderflow))
        } else {
            (Machine { stack: s.stack.drop_last(), ..s }, Ok(()))
        },
        Instruction::PopUntil => (
            Machine { stack: below_run(s.stack), ..s },
            run_result(s.stack),
        ),
        Instruction::Output => if s.stack.len() == 0 {
            (s, Err(Fault::StackUnderflow))
        } else {
            (
                Machine {
                    stack: s.stack.drop_last(),
                    output: s.output.push(low_byte(s.stack.last())),
                    ..s
                },
                Ok(()),
            )
        },
        Instruction::OutputUntil => (
            Machine {
                stack: below_run(s.stack),
                output: s.output + run_bytes(s.stack),
                ..s
            },
            run_result(s.stack),
        ),
        Instruction::LeftShift | Instruction::RightShift | Instruction::Not => unary_spec(
            s,
            instruction,
        ),
        _ => binary_spec(s, instruction),
    }
}

/// The machine with its cursor moved.
pub open spec fn moved(s: Machine, to: (MatrixPoint, Direction, Pixel)) -> Machine {
    Machine { pc: to.0, direction: to.1, ..s }
}

/// One cycle of the machine: move to the next cell and decode it; for an
/// instruction that takes an operand, move once more and read the operand
/// there; execute.
pub open spec fn step_spec(program: Seq<Seq<Pixel>>, s: Machine) -> (Machine, Result<(), Fault>) {
    match advance(program, s.pc, s.direction) {
        None => (s, Err(Fault::NoRoute)),
        Some(first) => {
            let arrived = moved(s, first);
            let instruction = instruction_at(first.2.spec_value());
            if instruction.spec_takes_arg() {
                match advance(program, arrived.pc, arrived.direction) {
                    None => (arrived, Err(Fault::InvalidOperand)),
                    Some(second) => execute_spec(
                        moved(arrived, second),
                        instruction,
                        operand(Some(second.2)),
                    ),
                }
            } else {
                execute_spec(arrived, instruction, None)
            }
        },
    }
}

/// The machine after at most `steps` cycles, and the fault that ended the
/// run, if one did.
pub open spec fn run_spec(program: Seq<Seq<Pixel>>, s: Machine, steps: nat) -> (
    Machine,
    Option<Fault>,
)
    decreases steps,
{
    if steps == 0 {
        (s, None)
    } else {
        match step_spec(program, s).1 {
            Err(fault) => (step_spec(program, s).0, Some(fault)),
            Ok(()) => run_spec(program, step_spec(program, s).0, (steps - 1) as nat),
        }
    }
}

/// Sums, differences and products wrap at 2^16; the shifts are by one bit;
/// `Not` flips all sixteen bits.
pub proof fn lemma_arithmetic(a: u16, b: u16)
    ensures
        binary(Instruction::Add, a, b) == (a + b) % 0x1_0000,
        binary(Instruction::Add, a, b) == if a + b < 0x1_0000 {
            a + b
        } else {
            a + b - 0x1_0000
        },
        binary(Instruction::Sub, a, b) == if a >= b {
            a - b
        } else {
            a - b + 0x1_0000
        },
        binary(Instruction::Mult, a, b) == (a * b) % 0x1_0000,
        unary(Instruction::LeftShift, a) == (2 * a) % 0x1_0000,
        unary(Instruction::RightShift, a) == a / 2,
        unary(Instruction::Not, a) == 0xffff - a,
{
    assert(a << 1 == (2 * a) % 0x1_0000) by (bit_vector);
    assert(a >> 1 == a / 2) by (bit_vector);
    assert(!a == 0xffff - a) by (bit_vector);
}

/// An instruction that combines two values replaces the two on top of the
/// stack by its result and touches nothing else, but that `Div` and `Modulo`
/// fault on a divisor of zero.
pub proof fn lemma_binary_on_stack(s: Machine, instruction: Instruction, a: u16, b: u16)
    requires
        is_binary(instruction),
    ensures
        ({
            let before = Machine { stack: s.stack.push(a).push(b), ..s };
            if (instruction == Instruction::Div || instruction == Instruction::Modulo) && b == 0 {
                execute_spec(before, instruction, None) == (s, Err::<(), Fault>(Fault::DivideByZero))
            } else {
                execute_spec(before, instruction, None) == (
                    Machine { stack: s.stack.push(binary(instruction, a, b)), ..s },
                    Ok::<(), Fault>(()),
                )
            }
        }),
{
    let before = Machine { stack: s.stack.push(a).push(b), ..s };
    assert(before.stack.take(before.stack.len() - 2) == s.stack);
}

/// Above a zero, `text` pushed last value first has a run as long as
/// `text`.
proof fn lemma_run_of_text(base: Seq<u16>, text: Seq<u16>)
    requires
        forall|i: int| 0 <= i < text.len() ==> text[i] != 0,
    ensures
        run_length(base.push(0) + text.reverse()) == text.len(),
    decreases text.len(),
{
    let stack = base.push(0) + text.reverse();
    if text.len() == 0 {
        assert(stack == base.push(0));
    } else {
        let rest = text.subrange(1, text.len() as int);
        assert(stack.last() == text[0]);
        assert(stack.drop_last() == base.push(0) + rest.reverse());
        lemma_run_of_text(base, rest);
    }
}

/// `OutputUntil` writes the stack from the top down: where the values of
/// `text`, none of them zero, have been pushed last value first on top of a
/// zero, it writes the low bytes of `text` in order, and leaves what lay
/// below the zero.
pub proof fn lemma_output_until_order(s: Machine, text: Seq<u16>)
    requires
        forall|i: int| 0 <= i < text.len() ==> text[i] != 0,
    ensures
        execute_spec(
            Machine { stack: s.stack.push(0) + text.reverse(), ..s },
            Instruction::OutputUntil,
            None,
        ) == (
            Machine { output: s.output + text.map_values(|v: u16| low_byte(v)), ..s },
            Ok::<(), Fault>(()),
        ),
{
    let stack = s.stack.push(0) + text.reverse();
    lemma_run_of_text(s.stack, text);
    assert(below_run(stack) == s.stack);
    assert(run_bytes(stack) == text.map_values(|v: u16| low_byte(v)));
}

/// Between cycles the cursor stands on the grid and the tape keeps its
/// length: a cycle that starts so ends so, whether or not it faults.
pub proof fn lemma_step_invariant(program: Seq<Seq<Pixel>>, s: Machine)
    requires
        grid_contains(program, s.pc),
        s.tape.len() == TAPE_SIZE,
    ensures
        grid_contains(program, step_spec(program, s).0.pc),
        step_spec(program, s).0.tape.len() == TAPE_SIZE,
{
    lemma_advance_stays_on_grid(program, s.pc, s.direction);
    match advance(program, s.pc, s.direction) {
        Some(first) => {
            let arrived = moved(s, first);
            lemma_advance_stays_on_grid(program, arrived.pc, arrived.direction);
        },
        None => {},
    }
}

/// A run keeps the cursor on the grid and the tape at its length.
pub proof fn lemma_run_invariant(program: Seq<Seq<Pixel>>, s: Machine, steps: nat)
    requires
        grid_contains(program, s.pc),
        s.tape.len() == TAPE_SIZE,
    ensures
        grid_contains(program, run_spec(program, s, steps).0.pc),
        run_spec(program, s, steps).0.tape.len() == TAPE_SIZE,
    decreases steps,
{
    if steps > 0 {
        lemma_step_invariant(program, s);
        if step_spec(program, s).1.is_ok() {
            lemma_run_invariant(program, step_spec(program, s).0, (steps - 1) as nat);
        }
    }
}

/// In a program whose hues lie below 360 a cycle reads every operand as the
/// hue of its cell: an instruction that takes an operand takes its effect
/// with that hue, and `InvalidOperand` comes only where the cursor has no
/// cell to read from.
pub proof fn lemma_operand_on_program(program: Seq<Seq<Pixel>>, s: Machine)
    requires
        well_formed(program),
    ensures
        match advance(program, s.pc, s.direction) {
            Some(first) => {
                let arrived = moved(s, first);
                instruction_at(first.2.spec_value()).spec_takes_arg() ==> match advance(
                    program,
                    arrived.pc,
                    arrived.direction,
                ) {
                    Some(second) => step_spec(program, s) == execute_spec(
                        moved(arrived, second),
                        instruction_at(first.2.spec_value()),
                        Some(second.2.spec_value()),
                    ),
                    None => step_spec(program, s).1 == Err::<(), Fault>(Fault::InvalidOperand),
                }
            },
            None => step_spec(program, s).1 == Err::<(), Fault>(Fault::NoRoute),
        },
{
    match advance(program, s.pc, s.direction) {
        Some(first) => {
            let arrived = moved(s, first);
            lemma_advance_on_program(program, arrived.pc, arrived.direction);
        },
        None => {},
    }
}

/// The virtual machine.
pub struct VM {
    stack: Vec<u16>,
    register_a: u16,
    tape: [u16; TAPE_SIZE],
    direction: Direction,
    instructions: Matrix<Pixel>,
    pc: MatrixPoint,
    out: Vec<u8>,
}

impl View for VM {
    type V = Machine;

    closed spec fn view(&self) -> Machine {
        Machine {
            stack: self.stack@,
            register_a: self.register_a,
            tape: self.tape@,
            direction: self.direction,
            pc: self.pc,
            output: self.out@,
        }
    }
}

impl Default for VM {
    fn default() -> (vm: VM)
        ensures
            vm@ == fresh(),
            vm.program() == Seq::<Seq<Pixel>>::empty(),
    {
        VM::new()
    }
}

impl VM {
    /// The program that the machine runs.
    pub closed spec fn program(&self) -> Seq<Seq<Pixel>> {
        self.instructions@
    }

    /// The tape of a machine has `TAPE_SIZE` entries, whatever has run.
    pub proof fn lemma_tape_length(&self)
        ensures
            self@.tape.len() == TAPE_SIZE,
    {
    }

    /// A machine with an empty stack, a tape of zeros, register A at zero,
    /// heading east from the top-left corner, with no program and nothing
    /// written.
    pub fn new() -> (vm: VM)
        ensures
            vm@ == fresh(),
            vm.program() == Seq::<Seq<Pixel>>::empty(),
    {
        let vm = VM {
            stack: Vec::new(),
            register_a: 0,
            tape: [0; TAPE_SIZE],
            direction: Direction::East,
            instructions: Matrix::new(Vec::new()),
            pc: MatrixPoint(0, 0),
            out: Vec::new(),
        };
        assert(vm@ =~= fresh());
        assert(vm.program() =~= Seq::<Seq<Pixel>>::empty());
        vm
    }

    /// Where the cursor stands.
    pub fn pc(&self) -> (point: MatrixPoint)
        ensures
            point == self@.pc,
    {
        self.pc
    }

    /// The heading of the cursor.
    pub fn direction(&self) -> (direction: Direction)
        ensures
            direction == self@.direction,
    {
        self.direction
    }

    /// Turns the cursor to `direction`.
    pub fn set_direction(&mut self, direction: Direction)
        ensures
            final(self).program() == old(self).program(),
            final(self)@ == (Machine { direction, ..old(self)@ }),
    {
        self.direction = direction;
    }

    /// The index register.
    pub fn register_a(&self) -> (value: u16)
        ensures
            value == self@.register_a,
    {
        self.register_a
    }

    /// The operand stack, its top last.
    pub fn stack(&self) -> (stack: &Vec<u16>)
        ensures
            stack@ == self@.stack,
    {
        &self.stack
    }

    /// The tape.
    pub fn tape(&self) -> (tape: &[u16; TAPE_SIZE])
        ensures
            tape@ == self@.tape,
    {
        &self.tape
    }

    /// The bytes written and not yet taken.
    pub fn out(&self) -> (bytes: &Vec<u8>)
        ensures
            bytes@ == self@.output,
    {
        &self.out
    }

    /// Hands out the bytes written since the last call and forgets them.
    pub fn take_output(&mut self) -> (bytes: Vec<u8>)
        ensures
            bytes@ == old(self)@.output,
            final(self).program() == old(self).program(),
            final(self)@ == (Machine { output: Seq::empty(), ..old(self)@ }),
    {
        let mut bytes: Vec<u8> = Vec::new();
        std::mem::swap(&mut self.out, &mut bytes);
        bytes
    }

    /// Whether two machines differ in nothing but their stack and what they
    /// have written.
    pub open spec fn same_frame(&self, other: &VM) -> bool {
        &&& self.program() == other.program()
        &&& self@.register_a == other@.register_a
        &&& self@.tape == other@.tape
        &&& self@.direction == other@.direction
        &&& self@.pc == other@.pc
    }

    pub fn push(&mut self, arg: u16)
        ensures
            final(self)@ == (Machine { stack: old(self)@.stack.push(arg), ..old(self)@ }),
            final(self).program() == old(self).program(),
    {
        self.stack.push(arg)
    }

    /// Takes the top of the stack off.
    pub fn pop(&mut self) -> (r: Result<u16, Fault>)
        ensures
            final(self).program() == old(self).program(),
            old(self)@.stack.len() == 0 ==> r == Err::<u16, Fault>(Fault::StackUnderflow)
                && final(self)@ == old(self)@,
            old(self)@.stack.len() > 0 ==> r == Ok::<u16, Fault>(old(self)@.stack.last())
                && final(self)@ == (Machine { stack: old(self)@.stack.drop_last(), ..old(self)@ }),
    {
        match self.stack.pop() {
            Some(value) => Ok(value),
            None => Err(Fault::StackUnderflow),
        }
    }

    /// The place on the tape that register A points at.
    fn tape_index(&self) -> (r: Result<usize, Fault>)
        ensures
            self@.register_a < TAPE_SIZE ==> r == Ok::<usize, Fault>(self@.register_a as usize),
            self@.register_a >= TAPE_SIZE ==> r == Err::<usize, Fault>(Fault::TapeOutOfRange),
    {
        if (self.register_a as usize) < TAPE_SIZE {
            Ok(self.register_a as usize)
        } else {
            Err(Fault::TapeOutOfRange)
        }
    }

    /// Pops `b`, then `a`, and pushes what `instruction` makes of them.
    fn infix(&mut self, instruction: Instruction) -> (r: Result<(), Fault>)
        requires
            is_binary(instruction),
        ensures
            (final(self)@, r) == binary_spec(old(self)@, instruction),
            final(self).program() == old(self).program(),
    {
        let b = self.pop()?;
        let a = self.pop()?;
        assert(self@.stack == old(self)@.stack.take(old(self)@.stack.len() - 2));
        let value = match instruction {
            Instruction::Add => a.wrapping_add(b),
            Instruction::Sub => a.wrapping_sub(b),
            Instruction::Mult => a.wrapping_mul(b),
            Instruction::Div => {
                if b == 0 {
                    return Err(Fault::DivideByZero);
                }
                a / b
            },
            Instruction::Modulo => {
                if b == 0 {
                    return Err(Fault::DivideByZero);
                }
                a % b
            },
            Instruction::And => a & b,
            Instruction::Or => a | b,
            _ => a ^ b,
        };
        self.stack.push(value);
        Ok(())
    }

    /// Pops a value and pushes what `instruction` makes of it.
    fn unary_infix(&mut self, instruction: Instruction) -> (r: Result<(), Fault>)
        requires
            is_unary(instruction),
        ensures
            (final(self)@, r) == unary_spec(old(self)@, instruction),
            final(self).program() == old(self).program(),
    {
        let a = self.pop()?;
        let value = match instruction {
            Instruction::LeftShift => a << 1,
            Instruction::RightShift => a >> 1,
            _ => !a,
        };
        self.stack.push(value);
        Ok(())
    }

    /// Pops one value and writes its low byte.
    fn output(&mut self) -> (r: Result<(), Fault>)
        ensures
            (final(self)@, r) == execute_spec(old(self)@, Instruction::Output, None),
            final(self).program() == old(self).program(),
    {
        let c = self.pop()?;
        self.out.push((c % 256) as u8);
        Ok(())
    }

    /// Pops down to and with the topmost zero, and writes the low byte of
    /// each value above it, the top first.
    fn output_until(&mut self) -> (r: Result<(), Fault>)
        ensures
            (final(self)@, r) == execute_spec(old(self)@, Instruction::OutputUntil, None),
            final(self).program() == old(self).program(),
    {
        let ghost start = self@.stack;
        let ghost written = self@.output;
        loop
            invariant
                self.same_frame(old(self)),
                self@.stack.len() <= start.len(),
                self@.stack == start.take(self@.stack.len() as int),
                run_length(start) == run_length(self@.stack) + start.len() - self@.stack.len(),
                self@.output == written + run_bytes(start).take(start.len() - self@.stack.len()),
                start == old(self)@.stack,
                written == old(self)@.output,
            decreases self@.stack.len(),
        {
            let ghost before = self@.stack;
            let ghost popped = start.len() - before.len();
            match self.stack.pop() {
                None => {
                    assert(run_bytes(start).take(popped) == run_bytes(start));
                    assert(self@.stack == below_run(start));
                    return Err(Fault::StackUnderflow);
                },
                Some(c) => {
                    assert(c == before.last());
                    if c == 0 {
                        assert(run_bytes(start).take(popped) == run_bytes(start));
                        assert(self@.stack == below_run(start));
                        return Ok(());
                    }
                    self.out.push((c % 256) as u8);
                    assert(run_bytes(start).take(popped + 1) == run_bytes(start).take(popped).push(
                        low_byte(c),
                    ));
                },
            }
        }
    }

    /// Pops down to and with the topmost zero.
    fn pop_until(&mut self) -> (r: Result<(), Fault>)
        ensures
            (final(self)@, r) == execute_spec(old(self)@, Instruction::PopUntil, None),
            final(self).program() == old(self).program(),
    {
        let ghost start = self@.stack;
        loop
            invariant
                self.same_frame(old(self)),
                self@.output == old(self)@.output,
                self@.stack.len() <= start.len(),
                self@.stack == start.take(self@.stack.len() as int),
                run_length(start) == run_length(self@.stack) + start.len() - self@.stack.len(),
                start == old(self)@.stack,
            decreases self@.stack.len(),
        {
            let ghost before = self@.stack;
            match self.stack.pop() {
                None => {
                    assert(self@.stack == below_run(start));
                    return Err(Fault::StackUnderflow);
                },
                Some(c) => {
                    assert(c == before.last());
                    if c == 0 {
                        assert(self@.stack == below_run(start));
                        return Ok(());
                    }
                },
            }
        }
    }

    /// Carries out one instruction. `arg` is the cell after it, for an
    /// instruction that takes an operand.
    #[allow(clippy::unit_arg)]
    pub fn execute_instruction(&mut self, instruction: Instruction, arg: Option<Pixel>) -> (r:
        Result<(), Fault>)
        ensures
            (final(self)@, r) == execute_spec(old(self)@, instruction, operand(arg)),
            final(self).program() == old(self).program(),
    {
        let value: Option<u16> = match arg {
            Some(pixel) => if pixel.as_data() < 360 {
                Some(pixel.as_data())
            } else {
                None
            },
            None => None,
        };
        if instruction.takes_arg() && value.is_none() {
            return Err(Fault::InvalidOperand);
        }
        match instruction {
            Instruction::Road | Instruction::Start | Instruction::Nop => Ok(()),
            Instruction::Push => Ok(self.push(value.unwrap())),
            Instruction::Add => self.infix(Instruction::Add),
            Instruction::Sub => self.infix(Instruction::Sub),
            Instruction::Mult => self.infix(Instruction::Mult),
            Instruction::Div => self.infix(Instruction::Div),
            Instruction::Modulo => self.infix(Instruction::Modulo),
            Instruction::LeftShift => self.unary_infix(Instruction::LeftShift),
            Instruction::RightShift => self.unary_infix(Instruction::RightShift),
            Instruction::Output => self.output(),
            Instruction::OutputUntil => self.output_until(),
            Instruction::PushA => {
                let index = self.tape_index()?;
                Ok(self.push(self.tape[index]))
            },
            Instruction::PopUntil => self.pop_until(),
            Instruction::Save => {
                let index = self.tape_index()?;
                Ok(self.tape[index] = value.unwrap())
            },
            Instruction::MovA => Ok(self.register_a = value.unwrap()),
            Instruction::PopA => Ok(self.register_a = self.pop()?),
            Instruction::Pop => {
                self.pop()?;
                Ok(())
            },
            Instruction::And => self.infix(Instruction::And),
            Instruction::Or => self.infix(Instruction::Or),
            Instruction::Xor => self.infix(Instruction::Xor),
            Instruction::Not => self.unary_infix(Instruction::Not),
        }
    }

    /// The neighbours of the cursor that lie on the grid, in the order
    /// ahead, right, left, behind.
    pub fn get_next_pixels(&self) -> (list: Vec<(Direction, Pixel)>)
        ensures
            list@ == candidates(self.program(), self@.pc, self@.direction),
    {
        next_pixels(&self.instructions, self.pc, self.direction)
    }

    /// Turns the cursor towards the cell it moves to next and returns that
    /// cell: the first road that does not lead back, else the cell ahead,
    /// else the last neighbour there is. `None`, and no turn, where the
    /// cursor has no neighbour.
    pub fn get_next_instruction(&mut self) -> (r: Option<Pixel>)
        ensures
            final(self).program() == old(self).program(),
            match route(old(self).program(), old(self)@.pc, old(self)@.direction) {
                Some((direction, pixel)) => r == Some(pixel) && final(self)@ == (Machine {
                    direction,
                    ..old(self)@
                }),
                None => r.is_none() && final(self)@ == old(self)@,
            },
    {
        match navigate(&self.instructions, self.pc, self.direction) {
            Some((direction, pixel)) => {
                self.direction = direction;
                Some(pixel)
            },
            None => None,
        }
    }

    /// The point at which a run of the program begins: the first cell in
    /// reading order that encodes `Start`, or the top-left corner where none
    /// does.
    pub fn find_start(&self) -> (point: MatrixPoint)
        ensures
            is_entry(self.program(), point),
            point == entry_point(self.program()),
    {
        find_entry(&self.instructions)
    }

    /// Moves the cursor one cell on and returns the cell it has reached.
    fn advance(&mut self) -> (r: Option<Pixel>)
        ensures
            final(self).program() == old(self).program(),
            match advance(old(self).program(), old(self)@.pc, old(self)@.direction) {
                Some(to) => r == Some(to.2) && final(self)@ == moved(old(self)@, to),
                None => r.is_none() && final(self)@ == old(self)@,
            },
    {
        match navigate(&self.instructions, self.pc, self.direction) {
            Some((direction, pixel)) => match self.pc.neighbor(direction) {
                Some(next) => {
                    self.direction = direction;
                    self.pc = next;
                    Some(pixel)
                },
                None => None,
            },
            None => None,
        }
    }

    /// Takes `instructions` as the program and puts the cursor on its entry
    /// point. Stack, tape, register and heading stay as they are.
    pub fn load(&mut self, instructions: Matrix<Pixel>)
        ensures
            final(self).program() == instructions@,
            is_entry(instructions@, final(self)@.pc),
            final(self)@ == (Machine { pc: entry_point(instructions@), ..old(self)@ }),
    {
        self.instructions = instructions;
        self.pc = self.find_start();
    }

    /// Runs one cycle: moves to the next cell, decodes it, fetches the
    /// operand where the instruction takes one, and executes.
    pub fn step(&mut self) -> (r: Result<(), Fault>)
        ensures
            final(self).program() == old(self).program(),
            (final(self)@, r) == step_spec(old(self).program(), old(self)@),
    {
        let pixel = match self.advance() {
            Some(pixel) => pixel,
            None => {
                return Err(Fault::NoRoute);
            },
        };
        let instruction = pixel.as_instruction();
        let mut arg: Option<Pixel> = None;
        if instruction.takes_arg() {
            match self.advance() {
                Some(pixel) => {
                    arg = Some(pixel);
                },
                None => {
                    return Err(Fault::InvalidOperand);
                },
            }
        }
        self.execute_instruction(instruction, arg)
    }

    /// Loads `instructions` and runs cycles until one faults or `max_steps`
    /// of them have run. Returns the fault, or `None` where the budget of
    /// cycles ran out first.
    pub fn execute(&mut self, instructions: Matrix<Pixel>, max_steps: u64) -> (r: Option<Fault>)
        ensures
            final(self).program() == instructions@,
            (final(self)@, r) == run_spec(
                instructions@,
                Machine { pc: entry_point(instructions@), ..old(self)@ },
                max_steps as nat,
            ),
    {
        let ghost program = instructions@;
        self.load(instructions);
        let ghost loaded = self@;
        let mut done: u64 = 0;
        while done < max_steps
            invariant
                done <= max_steps,
                program == instructions@,
                self.program() == program,
                loaded == (Machine { pc: entry_point(program), ..old(self)@ }),
                run_spec(program, loaded, max_steps as nat) == run_spec(
                    program,
                    self@,
                    (max_steps - done) as nat,
                ),
            decreases max_steps - done,
        {
            let ghost before = self@;
            let outcome = self.step();
            assert(run_spec(program, before, (max_steps - done) as nat) == match outcome {
                Err(fault) => (self@, Some(fault)),
                Ok(()) => run_spec(program, self@, (max_steps - done - 1) as nat),
            });
            if let Err(fault) = outcome {
                return Some(fault);
            }
            done += 1;
        }
        None
    }
}

} // verus!
