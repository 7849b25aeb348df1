//! The state of the program editor: a cursor on the grid, a mode and a line
//! of input, and what each key does to them. Drawing and reading keys are
//! left to the caller.

use vstd::prelude::*;
use crate::direction::Direction;
use crate::matrix::{grid_cell, grid_contains, grid_neighbor, Matrix, MatrixPoint};
use crate::pixel::Pixel;

verus! {

/// The mode of the editor.
#[derive(Copy, Clone, Debug, PartialEq, Eq, Structural)]
pub enum State {
    /// Keys move the cursor.
    Normal,
    /// Keys spell the hue that replaces the one under the cursor.
    Replace,
    /// Keys spell a command.
    Command,
}

/// A key as the editor tells keys apart.
#[derive(Copy, Clone, Debug, PartialEq, Eq, Structural)]
pub enum Key {
    Char(char),
    Ctrl(char),
    Left,
    Right,
    Up,
    Down,
    Backspace,
    Esc,
    /// Any key that the editor has no use for.
    Other,
}

/// What the caller is to do after a key.
#[derive(Copy, Clone, Debug, PartialEq, Eq, Structural)]
pub enum Action {
    /// Draw again and read the next key.
    Continue,
    /// Write the program out, then go on.
    Save,
    /// Write the program out and, if that went well, leave.
    SaveAndQuit,
    /// Leave.
    Quit,
}

/// The largest hue.
pub const MAX_HUE: u16 = 359;

/// The character that draws the cell under the cursor.
pub const BLOCK_LIGHT: char = '\u{2591}';

/// The character that draws any other cell.
pub const BLOCK_FULL: char = '\u{2588}';

/// Whether the cell at `point` has room on a screen area of `width` by
/// `height` characters, where a cell is two characters wide and one high.
pub fn fits(point: MatrixPoint, width: u16, height: u16) -> (r: bool)
    ensures
        r == (point.1 < height && 2 * point.0 + 1 < width),
{
    point.1 < height as usize && point.0 < width as usize && point.0 * 2 + 1 < width as usize
}

/// The editor as a mathematical value.
#[verifier::ext_equal]
pub struct EditorView {
    pub grid: Seq<Seq<Pixel>>,
    pub position: MatrixPoint,
    pub state: State,
    pub input: Seq<char>,
    pub last_hue: Option<u16>,
}

/// One step from `point` in `direction`, or `point` itself where the grid
/// has no cell there.
pub open spec fn step_or_stay(grid: Seq<Seq<Pixel>>, point: MatrixPoint, direction: Direction) -> MatrixPoint {
    match grid_neighbor(grid, point, direction) {
        Some(next) => next,
        None => point,
    }
}

/// Where `steps` steps in `direction` lead from `point`, each step taken
/// only where the grid has a cell for it.
pub open spec fn slide(
    grid: Seq<Seq<Pixel>>,
    point: MatrixPoint,
    direction: Direction,
    steps: nat,
) -> MatrixPoint
    decreases steps,
{
    if steps == 0 {
        point
    } else {
        step_or_stay(grid, slide(grid, point, direction, (steps - 1) as nat), direction)
    }
}

/// The hue that replaces another: `hue`, but no more than `MAX_HUE`.
pub open spec fn clamped(hue: u16) -> u16 {
    if hue > MAX_HUE {
        MAX_HUE
    } else {
        hue
    }
}

/// The grid with the hue of the cell at `point` replaced.
pub open spec fn with_hue(grid: Seq<Seq<Pixel>>, point: MatrixPoint, hue: u16) -> Seq<Seq<Pixel>> {
    let row = grid[point.1 as int];
    let cell = row[point.0 as int];
    grid.update(
        point.1 as int,
        row.update(
            point.0 as int,
            Pixel { hsl: crate::hsl::Hsl { h: hue, ..cell.hsl }, point: cell.point },
        ),
    )
}

/// The editor after the hue under the cursor has been replaced by `hue`,
/// clamped. Where the cursor stands on no cell, nothing is replaced.
pub open spec fn replaced(e: EditorView, hue: u16) -> EditorView {
    if grid_contains(e.grid, e.position) {
        EditorView { grid: with_hue(e.grid, e.position, clamped(hue)), last_hue: Some(hue), ..e }
    } else {
        e
    }
}

/// The editor after the last replacement has been made again under the
/// cursor.
pub open spec fn repeated(e: EditorView) -> EditorView {
    match e.last_hue {
        Some(hue) => replaced(e, hue),
        None => e,
    }
}

/// The value of a decimal digit.
pub open spec fn digit(c: char) -> Option<nat> {
    if '0' <= c <= '9' {
        Some((c as nat - '0' as nat) as nat)
    } else {
        None
    }
}

/// The number that a run of decimal digits spells; `None` where a
/// character is no digit. The empty run spells 0.
pub open spec fn decimal(text: Seq<char>) -> Option<nat>
    decreases text.len(),
{
    if text.len() == 0 {
        Some(0)
    } else {
        match (decimal(text.drop_last()), digit(text.last())) {
            (Some(high), Some(low)) => Some(10 * high + low),
            _ => None,
        }
    }
}

/// The hue that a line of input spells: decimal digits, at least one, after
/// an optional plus sign, giving a number that sixteen bits hold.
pub open spec fn spelled_hue(text: Seq<char>) -> Option<u16> {
    let digits = if text.len() > 0 && text[0] == '+' {
        text.subrange(1, text.len() as int)
    } else {
        text
    };
    match decimal(digits) {
        Some(value) => if digits.len() > 0 && value <= u16::MAX {
            Some(value as u16)
        } else {
            None
        },
        None => None,
    }
}

/// What a command line asks for.
pub open spec fn command_action(text: Seq<char>) -> Action {
    if text == seq!['w'] {
        Action::Save
    } else if text == seq!['w', 'q'] {
        Action::SaveAndQuit
    } else if text == seq!['q'] || text == seq!['q', 'u', 'i', 't'] {
        Action::Quit
    } else {
        Action::Continue
    }
}

/// What a key does: the editor after it, and what the caller is to do.
pub open spec fn key_effect(e: EditorView, key: Key) -> (EditorView, Action) {
    match e.state {
        State::Normal => match key {
            Key::Ctrl('c') | Key::Char('q') => (e, Action::Quit),
            Key::Char('h') | Key::Left => (
                EditorView { position: step_or_stay(e.grid, e.position, Direction::West), ..e },
                Action::Continue,
            ),
            Key::Char('l') | Key::Right => (
                EditorView { position: step_or_stay(e.grid, e.position, Direction::East), ..e },
                Action::Continue,
            ),
            Key::Char('j') | Key::Down => (
                EditorView { position: step_or_stay(e.grid, e.position, Direction::South), ..e },
                Action::Continue,
            ),
            Key::Char('k') | Key::Up => (
                EditorView { position: step_or_stay(e.grid, e.position, Direction::North), ..e },
                Action::Continue,
            ),
            Key::Char('r') => (
                EditorView { state: State::Replace, input: Seq::empty(), ..e },
                Action::Continue,
            ),
            Key::Char(':') => (
                EditorView { state: State::Command, input: Seq::empty(), ..e },
                Action::Continue,
            ),
            _ => (e, Action::Continue),
        },
        state => match key {
            Key::Ctrl('c') | Key::Esc => (
                EditorView { state: State::Normal, input: Seq::empty(), ..e },
                Action::Continue,
            ),
            Key::Char('\n') => {
                let cleared = EditorView { state: State::Normal, input: Seq::empty(), ..e };
                if state == State::Replace {
                    match spelled_hue(e.input) {
                        Some(hue) => (replaced(cleared, hue), Action::Continue),
                        None => (cleared, Action::Continue),
                    }
                } else {
                    (cleared, command_action(e.input))
                }
            },
            Key::Backspace => (
                EditorView {
                    input: if e.input.len() > 0 {
                        e.input.drop_last()
                    } else {
                        e.input
                    },
                    ..e
                },
                Action::Continue,
            ),
            Key::Char(c) => (EditorView { input: e.input.push(c), ..e }, Action::Continue),
            _ => (e, Action::Continue),
        },
    }
}

/// The hue that `text` spells, as `str::parse::<u16>` reads it.
pub fn parse_hue(text: &Vec<char>) -> (r: Option<u16>)
    ensures
        r == spelled_hue(text@),
{
    let start: usize = if text.len() > 0 && text[0] == '+' {
        1
    } else {
        0
    };
    if start == text.len() {
        return None;
    }
    let ghost digits = text@.subrange(start as int, text.len() as int);
    let mut value: u32 = 0;
    let mut i: usize = start;
    while i < text.len()
        invariant
            start <= i <= text.len(),
            start < text.len(),
            start == if text@.len() > 0 && text@[0] == '+' {
                1usize
            } else {
                0usize
            },
            digits == text@.subrange(start as int, text.len() as int),
            decimal(digits.take(i - start)) == Some(value as nat),
            value <= u16::MAX,
        decreases text.len() - i,
    {
        let c = text[i];
        proof {
            assert(start == 0 ==> digits == text@);
            assert(digits.take(i - start + 1).drop_last() == digits.take(i - start));
            assert(digits.take(i - start + 1).last() == c);
            if digit(c).is_none() || 10 * value + digit(c).unwrap() > u16::MAX {
                lemma_decimal_prefix(digits, (i - start + 1) as nat);
            }
        }
        if c < '0' || c > '9' {
            return None;
        }
        let low: u32 = c as u32 - '0' as u32;
        value = 10 * value + low;
        if value > 65535 {
            return None;
        }
        i += 1;
    }
    assert(digits.take(i - start) == digits);
    assert(start == 0 ==> digits == text@);
    Some(value as u16)
}

/// A run of digits spells no less than any of its beginnings, and spells
/// nothing where one of its beginnings spells nothing.
pub proof fn lemma_decimal_prefix(text: Seq<char>, n: nat)
    requires
        n <= text.len(),
    ensures
        decimal(text.take(n as int)).is_none() ==> decimal(text).is_none(),
        decimal(text).is_some() ==> decimal(text.take(n as int)).unwrap() <= decimal(text).unwrap(),
    decreases text.len(),
{
    if n == text.len() {
        assert(text.take(n as int) == text);
    } else {
        assert(text.drop_last().take(n as int) == text.take(n as int));
        lemma_decimal_prefix(text.drop_last(), n);
    }
}

/// The editor of a program.
pub struct ImageEditor {
    pixels: Matrix<Pixel>,
    pixel_size: u32,
    position: MatrixPoint,
    /// Normal, replace or command mode.
    state: State,
    /// What has been typed in replace or command mode.
    input: Vec<char>,
    /// The hue of the last replacement, for the repeat command.
    last_hue: Option<u16>,
}

impl View for ImageEditor {
    type V = EditorView;

    closed spec fn view(&self) -> EditorView {
        EditorView {
            grid: self.pixels@,
            position: self.position,
            state: self.state,
            input: self.input@,
            last_hue: self.last_hue,
        }
    }
}

impl ImageEditor {
    /// The size of the blocks of the image that the program came from.
    pub closed spec fn spec_pixel_size(&self) -> u32 {
        self.pixel_size
    }

    /// An editor of `pixels` in normal mode, its cursor in the top-left
    /// corner.
    pub fn new(pixels: Matrix<Pixel>, pixel_size: u32) -> (editor: ImageEditor)
        ensures
            editor@ == (EditorView {
                grid: pixels@,
                position: MatrixPoint(0, 0),
                state: State::Normal,
                input: Seq::empty(),
                last_hue: None,
            }),
            editor.spec_pixel_size() == pixel_size,
    {
        ImageEditor {
            pixels,
            pixel_size,
            position: MatrixPoint(0, 0),
            state: State::Normal,
            input: Vec::new(),
            last_hue: None,
        }
    }

    /// Moves the cursor `steps` cells in `direction`, as far as the grid
    /// goes.
    pub fn go(&mut self, direction: Direction, steps: usize)
        ensures
            final(self).spec_pixel_size() == old(self).spec_pixel_size(),
            final(self)@ == (EditorView {
                position: slide(old(self)@.grid, old(self)@.position, direction, steps as nat),
                ..old(self)@
            }),
    {
        let mut done: usize = 0;
        while done < steps
            invariant
                done <= steps,
                self.spec_pixel_size() == old(self).spec_pixel_size(),
                self@ == (EditorView {
                    position: slide(old(self)@.grid, old(self)@.position, direction, done as nat),
                    ..old(self)@
                }),
            decreases steps - done,
        {
            if let Some(next) = self.pixels.neighbor(self.position, direction) {
                self.position = next;
            }
            done += 1;
        }
    }

    /// The cell under the cursor.
    pub fn current(&self) -> (r: Option<Pixel>)
        ensures
            r == grid_cell(self@.grid, self@.position),
    {
        self.pixels.get(self.position)
    }

    /// The character that draws the cell at `point`: a light block under the
    /// cursor, a full block elsewhere.
    pub fn glyph(&self, point: MatrixPoint) -> (c: char)
        ensures
            c == if point == self@.position {
                BLOCK_LIGHT
            } else {
                BLOCK_FULL
            },
    {
        if point == self.position {
            BLOCK_LIGHT
        } else {
            BLOCK_FULL
        }
    }

    /// The program as it stands.
    pub fn pixels(&self) -> (pixels: &Matrix<Pixel>)
        ensures
            pixels@ == self@.grid,
    {
        &self.pixels
    }

    /// The size of the blocks of the image that the program came from.
    pub fn pixel_size(&self) -> (size: u32)
        ensures
            size == self.spec_pixel_size(),
    {
        self.pixel_size
    }

    /// Where the cursor stands.
    pub fn position(&self) -> (point: MatrixPoint)
        ensures
            point == self@.position,
    {
        self.position
    }

    pub fn state(&self) -> (state: State)
        ensures
            state == self@.state,
    {
        self.state
    }

    pub fn input(&self) -> (input: &Vec<char>)
        ensures
            input@ == self@.input,
    {
        &self.input
    }

    /// Changes the mode and forgets what has been typed.
    pub fn set_state(&mut self, state: State)
        ensures
            final(self).spec_pixel_size() == old(self).spec_pixel_size(),
            final(self)@ == (EditorView { state, input: Seq::empty(), ..old(self)@ }),
    {
        self.input.clear();
        self.state = state;
    }

    /// Takes back the last character typed, if there is one.
    pub fn pop(&mut self)
        ensures
            final(self).spec_pixel_size() == old(self).spec_pixel_size(),
            final(self)@ == (EditorView {
                input: if old(self)@.input.len() > 0 {
                    old(self)@.input.drop_last()
                } else {
                    old(self)@.input
                },
                ..old(self)@
            }),
    {
        let _ = self.input.pop();
    }

    pub fn push(&mut self, c: char)
        ensures
            final(self).spec_pixel_size() == old(self).spec_pixel_size(),
            final(self)@ == (EditorView { input: old(self)@.input.push(c), ..old(self)@ }),
    {
        self.input.push(c);
    }

    /// Hands out what has been typed and goes back to normal mode.
    pub fn submit(&mut self) -> (input: Vec<char>)
        ensures
            input@ == old(self)@.input,
            final(self).spec_pixel_size() == old(self).spec_pixel_size(),
            final(self)@ == (EditorView {
                state: State::Normal,
                input: Seq::empty(),
                ..old(self)@
            }),
    {
        let mut input: Vec<char> = Vec::new();
        std::mem::swap(&mut self.input, &mut input);
        self.set_state(State::Normal);
        input
    }

    /// Replaces the hue under the cursor by `hue`, or by `MAX_HUE` where
    /// `hue` is beyond it, and remembers `hue` for `repeat`.
    pub fn replace_current(&mut self, hue: u16)
        ensures
            final(self).spec_pixel_size() == old(self).spec_pixel_size(),
            final(self)@ == replaced(old(self)@, hue),
    {
        if let Some(cell) = self.pixels.get(self.position) {
            let h = if hue > MAX_HUE {
                MAX_HUE
            } else {
                hue
            };
            let mut changed = cell;
            changed.hsl.h = h;
            self.pixels.set(self.position, changed);
            self.last_hue = Some(hue);
        }
    }

    /// Makes the last replacement again under the cursor.
    pub fn repeat(&mut self)
        ensures
            final(self).spec_pixel_size() == old(self).spec_pixel_size(),
            final(self)@ == repeated(old(self)@),
    {
        if let Some(hue) = self.last_hue {
            self.replace_current(hue);
        }
    }

    /// Takes a key: moves the cursor, changes the mode, edits the line of
    /// input, or carries the line out when it is entered. Returns what is
    /// left for the caller to do.
    pub fn handle_key(&mut self, key: Key) -> (action: Action)
        ensures
            final(self).spec_pixel_size() == old(self).spec_pixel_size(),
            (final(self)@, action) == key_effect(old(self)@, key),
    {
        proof {
            reveal_with_fuel(slide, 2);
        }
        match self.state {
            State::Normal => match key {
                Key::Ctrl('c') | Key::Char('q') => {
                    return Action::Quit;
                },
                Key::Char('h') | Key::Left => self.go(Direction::West, 1),
                Key::Char('l') | Key::Right => self.go(Direction::East, 1),
                Key::Char('j') | Key::Down => self.go(Direction::South, 1),
                Key::Char('k') | Key::Up => self.go(Direction::North, 1),
                Key::Char('r') => self.set_state(State::Replace),
                Key::Char(':') => self.set_state(State::Command),
                _ => (),
            },
            state => match key {
                Key::Ctrl('c') | Key::Esc => self.set_state(State::Normal),
                Key::Char('\n') => {
                    let input = self.submit();
                    match state {
                        State::Replace => {
                            if let Some(hue) = parse_hue(&input) {
                                self.replace_current(hue);
                            }
                        },
                        _ => {
                            return command(&input);
                        },
                    }
                },
                Key::Backspace => self.pop(),
                Key::Char(c) => self.push(c),
                _ => (),
            },
        }
        Action::Continue
    }
}

/// What a command line asks for: `w` to save, `wq` to save and leave, `q` or
/// `quit` to leave; any other line asks for nothing.
pub fn command(text: &Vec<char>) -> (action: Action)
    ensures
        action == command_action(text@),
{
    let n = text.len();
    let action = if n == 1 && text[0] == 'w' {
        Action::Save
    } else if n == 2 && text[0] == 'w' && text[1] == 'q' {
        Action::SaveAndQuit
    } else if n == 1 && text[0] == 'q' {
        Action::Quit
    } else if n == 4 && text[0] == 'q' && text[1] == 'u' && text[2] == 'i' && text[3] == 't' {
        Action::Quit
    } else {
        Action::Continue
    };
    proof {
        if n == 1 {
            assert(text@ == seq![text@[0]]);
        }
        if n == 2 {
            assert(text@ == seq![text@[0], text@[1]]);
        }
        if n == 4 {
            assert(text@ == seq![text@[0], text@[1], text@[2], text@[3]]);
        }
    }
    action
}

} // verus!
