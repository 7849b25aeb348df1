//! The routing policy of the cursor: prefer roads, go straight where there
//! is none, turn round at a wall.

use vstd::prelude::*;
use crate::direction::Direction;
use crate::instruction::{instruction_at, Instruction};
use crate::matrix::{grid_cell, grid_contains, grid_go, has_shape, Matrix, MatrixPoint};
use crate::pixel::{well_formed, Pixel};

verus! {

/// Whether a cell is a route marker.
pub open spec fn is_road(pixel: Pixel) -> bool {
    instruction_at(pixel.spec_value()) == Instruction::Road
}

/// The candidate in `direction`: the neighbouring cell with the heading that
/// leads to it, or nothing where the grid ends.
pub open spec fn candidate(
    program: Seq<Seq<Pixel>>,
    point: MatrixPoint,
    direction: Direction,
) -> Seq<(Direction, Pixel)> {
    match grid_go(program, point, direction) {
        Some(pixel) => seq![(direction, pixel)],
        None => seq![],
    }
}

/// The neighbours of `point` that lie on the grid, in the order in which the
/// cursor considers them: ahead, to the right, to the left, behind.
pub open spec fn candidates(
    program: Seq<Seq<Pixel>>,
    point: MatrixPoint,
    heading: Direction,
) -> Seq<(Direction, Pixel)> {
    candidate(program, point, heading)
        + candidate(program, point, heading.spec_clockwise())
        + candidate(program, point, heading.spec_counter_clockwise())
        + candidate(program, point, heading.spec_opposite())
}

/// The first candidate that is a road and does not lead in direction `back`.
pub open spec fn first_road(list: Seq<(Direction, Pixel)>, back: Direction) -> Option<
    (Direction, Pixel),
>
    decreases list.len(),
{
    if list.len() == 0 {
        None
    } else if is_road(list[0].1) && list[0].0 != back {
        Some(list[0])
    } else {
        first_road(list.subrange(1, list.len() as int), back)
    }
}

/// The candidate the cursor moves to: the first road that does not lead
/// back; failing that the first candidate, if it lies straight ahead;
/// failing that the last candidate.
pub open spec fn selection(list: Seq<(Direction, Pixel)>, heading: Direction) -> Option<
    (Direction, Pixel),
> {
    if first_road(list, heading.spec_opposite()) is Some {
        first_road(list, heading.spec_opposite())
    } else if list.len() == 0 {
        None
    } else if list[0].0 == heading {
        Some(list[0])
    } else {
        Some(list.last())
    }
}

/// Where the cursor goes from `point` with `heading`: the new heading and
/// the cell moved to.
pub open spec fn route(program: Seq<Seq<Pixel>>, point: MatrixPoint, heading: Direction) -> Option<
    (Direction, Pixel),
> {
    selection(candidates(program, point, heading), heading)
}

/// One move of the cursor from `point` with `heading`: the place it reaches,
/// its new heading and the cell there, or `None` where no neighbour lies on
/// the grid.
pub open spec fn advance(program: Seq<Seq<Pixel>>, point: MatrixPoint, heading: Direction) -> Option<
    (MatrixPoint, Direction, Pixel),
> {
    match route(program, point, heading) {
        Some((direction, pixel)) => match point.spec_neighbor(direction) {
            Some(next) => Some((next, direction, pixel)),
            None => None,
        },
        None => None,
    }
}

/// The place and heading of the cursor after `steps` moves.
pub open spec fn walk(
    program: Seq<Seq<Pixel>>,
    point: MatrixPoint,
    heading: Direction,
    steps: nat,
) -> Option<(MatrixPoint, Direction)>
    decreases steps,
{
    if steps == 0 {
        Some((point, heading))
    } else {
        match walk(program, point, heading, (steps - 1) as nat) {
            Some((p, h)) => match advance(program, p, h) {
                Some((next, direction, _)) => Some((next, direction)),
                None => None,
            },
            None => None,
        }
    }
}

/// Whether the cell at `point` is an entry point.
pub open spec fn starts_at(program: Seq<Seq<Pixel>>, point: MatrixPoint) -> bool {
    match grid_cell(program, point) {
        Some(pixel) => instruction_at(pixel.spec_value()) == Instruction::Start,
        None => false,
    }
}

/// Whether `p` comes before `q` when the grid is read row by row, each row
/// from the left.
pub open spec fn precedes(p: MatrixPoint, q: MatrixPoint) -> bool {
    p.1 < q.1 || (p.1 == q.1 && p.0 < q.0)
}

/// Whether a run of `program` begins at `point`: at the first entry point in
/// reading order, or at the top-left corner where the program has none.
pub open spec fn is_entry(program: Seq<Seq<Pixel>>, point: MatrixPoint) -> bool {
    ||| starts_at(program, point) && forall|q: MatrixPoint| #[trigger]
        starts_at(program, q) ==> !precedes(q, point)
    ||| point == MatrixPoint(0, 0) && forall|q: MatrixPoint| !#[trigger] starts_at(program, q)
}

/// The point at which a run of `program` begins.
pub open spec fn entry_point(program: Seq<Seq<Pixel>>) -> MatrixPoint {
    choose|point: MatrixPoint| is_entry(program, point)
}

/// A program has one point at which a run begins.
pub proof fn lemma_entry_unique(program: Seq<Seq<Pixel>>, p: MatrixPoint, q: MatrixPoint)
    requires
        is_entry(program, p),
        is_entry(program, q),
    ensures
        p == q,
        p == entry_point(program),
{
}

/// A program with a cell in its top-left corner begins on the grid.
pub proof fn lemma_entry_on_grid(program: Seq<Seq<Pixel>>)
    requires
        grid_contains(program, MatrixPoint(0, 0)),
    ensures
        grid_contains(program, entry_point(program)),
{
    let corner = MatrixPoint(0, 0);
    if exists|q: MatrixPoint| starts_at(program, q) {
        lemma_first_start(program, choose|q: MatrixPoint| starts_at(program, q));
    } else {
        assert(is_entry(program, corner));
    }
}

/// Where a program has an entry point, it has a first one, and a run begins
/// there.
pub proof fn lemma_first_start(program: Seq<Seq<Pixel>>, found: MatrixPoint)
    requires
        starts_at(program, found),
    ensures
        exists|first: MatrixPoint|
            starts_at(program, first) && is_entry(program, first) && first == entry_point(program),
    decreases found.1, found.0,
{
    if exists|q: MatrixPoint| starts_at(program, q) && precedes(q, found) {
        let q = choose|q: MatrixPoint| starts_at(program, q) && precedes(q, found);
        lemma_first_start(program, q);
    } else {
        assert(is_entry(program, found));
        lemma_entry_unique(program, found, found);
    }
}

/// The point at which a run of `program` begins: the first cell in reading
/// order that encodes `Start`, or the top-left corner where none does.
pub fn find_entry(program: &Matrix<Pixel>) -> (point: MatrixPoint)
    ensures
        is_entry(program@, point),
        point == entry_point(program@),
{
    let mut y: usize = 0;
    while y < program.matrix.len()
        invariant
            y <= program.matrix.len(),
            forall|q: MatrixPoint| q.1 < y ==> !#[trigger] starts_at(program@, q),
        decreases program.matrix.len() - y,
    {
        let row = &program.matrix[y];
        let mut x: usize = 0;
        while x < row.len()
            invariant
                y < program.matrix.len(),
                row == &program.matrix[y as int],
                x <= row.len(),
                forall|q: MatrixPoint|
                    q.1 < y || (q.1 == y && q.0 < x) ==> !#[trigger] starts_at(program@, q),
            decreases row.len() - x,
        {
            if row[x].as_instruction() == Instruction::Start {
                let point = MatrixPoint(x, y);
                proof {
                    assert(grid_cell(program@, point) == Some(row[x as int]));
                    assert(starts_at(program@, point));
                    lemma_entry_unique(program@, point, point);
                }
                return point;
            }
            proof {
                let here = MatrixPoint(x, y);
                assert(grid_cell(program@, here) == Some(row[x as int]));
            }
            x += 1;
        }
        y += 1;
    }
    proof {
        lemma_entry_unique(program@, MatrixPoint(0, 0), MatrixPoint(0, 0));
    }
    MatrixPoint(0, 0)
}

/// Appends the candidate in `direction` to `list`.
fn push_candidate(
    list: &mut Vec<(Direction, Pixel)>,
    program: &Matrix<Pixel>,
    point: MatrixPoint,
    direction: Direction,
)
    ensures
        final(list)@ == old(list)@ + candidate(program@, point, direction),
{
    if let Some(pixel) = program.go(point, direction) {
        list.push((direction, pixel));
    }
}

/// The neighbours of `point` that lie on the grid, in the order ahead,
/// right, left, behind.
pub fn next_pixels(program: &Matrix<Pixel>, point: MatrixPoint, heading: Direction) -> (list: Vec<
    (Direction, Pixel),
>)
    ensures
        list@ == candidates(program@, point, heading),
{
    let mut list: Vec<(Direction, Pixel)> = Vec::new();
    push_candidate(&mut list, program, point, heading);
    push_candidate(&mut list, program, point, heading.counter_clockwise().opposite());
    push_candidate(&mut list, program, point, heading.counter_clockwise());
    push_candidate(&mut list, program, point, heading.opposite());
    list
}

/// The candidate of `list` that a cursor with `heading` moves to.
pub fn select(list: &Vec<(Direction, Pixel)>, heading: Direction) -> (r: Option<(Direction, Pixel)>)
    ensures
        r == selection(list@, heading),
{
    let back = heading.opposite();
    let mut i: usize = 0;
    assert(list@.subrange(0, list.len() as int) == list@);
    while i < list.len()
        invariant
            i <= list.len(),
            back == heading.spec_opposite(),
            first_road(list@, back) == first_road(list@.subrange(i as int, list.len() as int), back),
        decreases list.len() - i,
    {
        let (direction, pixel) = list[i];
        let ghost rest = list@.subrange(i as int, list.len() as int);
        assert(rest[0] == list@[i as int]);
        if matches!(pixel.as_instruction(), Instruction::Road) && direction != back {
            return Some((direction, pixel));
        }
        assert(rest.subrange(1, rest.len() as int) == list@.subrange(i + 1, list.len() as int));
        i += 1;
    }
    if list.len() == 0 {
        None
    } else if list[0].0 == heading {
        Some(list[0])
    } else {
        Some(list[list.len() - 1])
    }
}

/// Where a cursor at `point` with `heading` goes next: the new heading and
/// the cell moved to, or `None` where no neighbour lies on the grid.
pub fn navigate(program: &Matrix<Pixel>, point: MatrixPoint, heading: Direction) -> (r: Option<
    (Direction, Pixel),
>)
    ensures
        r == route(program@, point, heading),
{
    let list = next_pixels(program, point, heading);
    select(&list, heading)
}

/// Whether the neighbour of `point` in `direction` is a road.
pub open spec fn road_at(program: Seq<Seq<Pixel>>, point: MatrixPoint, direction: Direction) -> bool {
    match grid_go(program, point, direction) {
        Some(pixel) => is_road(pixel),
        None => false,
    }
}

/// The candidate in `direction` as the cursor takes it: the heading and the
/// cell.
pub open spec fn toward(program: Seq<Seq<Pixel>>, point: MatrixPoint, direction: Direction) -> Option<
    (Direction, Pixel),
> {
    match grid_go(program, point, direction) {
        Some(pixel) => Some((direction, pixel)),
        None => None,
    }
}

/// The routing policy told neighbour by neighbour: a road ahead, else a road
/// to the right, else a road to the left; else the cell ahead; else the cell
/// behind, else the one to the left, else the one to the right.
pub proof fn lemma_route_cases(program: Seq<Seq<Pixel>>, point: MatrixPoint, heading: Direction)
    ensures
        route(program, point, heading) == if road_at(program, point, heading) {
            toward(program, point, heading)
        } else if road_at(program, point, heading.spec_clockwise()) {
            toward(program, point, heading.spec_clockwise())
        } else if road_at(program, point, heading.spec_counter_clockwise()) {
            toward(program, point, heading.spec_counter_clockwise())
        } else if grid_go(program, point, heading).is_some() {
            toward(program, point, heading)
        } else if grid_go(program, point, heading.spec_opposite()).is_some() {
            toward(program, point, heading.spec_opposite())
        } else if grid_go(program, point, heading.spec_counter_clockwise()).is_some() {
            toward(program, point, heading.spec_counter_clockwise())
        } else {
            toward(program, point, heading.spec_clockwise())
        },
{
    reveal_with_fuel(first_road, 5);
    let ahead = candidate(program, point, heading);
    let right = candidate(program, point, heading.spec_clockwise());
    let left = candidate(program, point, heading.spec_counter_clockwise());
    let behind = candidate(program, point, heading.spec_opposite());
    let list = candidates(program, point, heading);
    assert(list == ahead + right + left + behind);
    assert(list.len() == ahead.len() + right.len() + left.len() + behind.len());
}

/// The cell that the cursor moves to is the neighbour in its new heading.
pub proof fn lemma_route_is_neighbour(program: Seq<Seq<Pixel>>, point: MatrixPoint, heading: Direction)
    ensures
        match route(program, point, heading) {
            Some((direction, pixel)) => grid_go(program, point, direction) == Some(pixel),
            None => forall|direction: Direction| #[trigger]
                grid_go(program, point, direction).is_none(),
        },
{
    lemma_route_cases(program, point, heading);
    assert forall|direction: Direction|
        route(program, point, heading).is_none() implies #[trigger] grid_go(program, 
        point,
        direction,
    ).is_none() by {
        assert(direction == heading || direction == heading.spec_clockwise() || direction
            == heading.spec_counter_clockwise() || direction == heading.spec_opposite());
    }
}

/// A move takes the cursor onto the grid: the place it reaches holds the
/// cell it was routed to, one step from where it stood.
pub proof fn lemma_advance_stays_on_grid(
    program: Seq<Seq<Pixel>>,
    point: MatrixPoint,
    heading: Direction,
)
    ensures
        match advance(program, point, heading) {
            Some((next, direction, pixel)) => {
                &&& route(program, point, heading) == Some((direction, pixel))
                &&& point.spec_neighbor(direction) == Some(next)
                &&& grid_cell(program, next) == Some(pixel)
            },
            None => route(program, point, heading).is_none(),
        },
{
    lemma_route_is_neighbour(program, point, heading);
}

/// In a program whose cells know their places, the cell that the cursor
/// moves to carries the place that the cursor reaches, and its hue is a
/// number below 360.
pub proof fn lemma_advance_on_program(
    program: Seq<Seq<Pixel>>,
    point: MatrixPoint,
    heading: Direction,
)
    requires
        well_formed(program),
    ensures
        match advance(program, point, heading) {
            Some((next, direction, pixel)) => {
                &&& pixel.point == next
                &&& pixel.spec_value() < 360
                &&& point.spec_neighbor(direction) == Some(pixel.point)
            },
            None => true,
        },
{
    lemma_advance_stays_on_grid(program, point, heading);
}

/// Road priority: where the cell ahead is no road and the cell to the right
/// is one, the cursor turns right.
pub proof fn lemma_road_priority(program: Seq<Seq<Pixel>>, point: MatrixPoint, heading: Direction)
    requires
        grid_go(program, point, heading).is_some(),
        !road_at(program, point, heading),
        road_at(program, point, heading.spec_clockwise()),
    ensures
        route(program, point, heading) == toward(program, point, heading.spec_clockwise()),
        route(program, point, heading).is_some(),
{
    lemma_route_cases(program, point, heading);
}

/// Back-road suppression: where the only road among the neighbours lies
/// behind the cursor and there is a cell ahead, the cursor goes ahead.
pub proof fn lemma_back_road_suppressed(
    program: Seq<Seq<Pixel>>,
    point: MatrixPoint,
    heading: Direction,
)
    requires
        road_at(program, point, heading.spec_opposite()),
        grid_go(program, point, heading).is_some(),
        !road_at(program, point, heading),
        !road_at(program, point, heading.spec_clockwise()),
        !road_at(program, point, heading.spec_counter_clockwise()),
    ensures
        route(program, point, heading) == toward(program, point, heading),
        route(program, point, heading).is_some(),
{
    lemma_route_cases(program, point, heading);
}

/// Whether no cell of the program is a road.
pub open spec fn roadless(program: Seq<Seq<Pixel>>) -> bool {
    forall|point: MatrixPoint|
        match #[trigger] grid_cell(program, point) {
            Some(pixel) => !is_road(pixel),
            None => true,
        }
}

/// Bounce on a single row without roads: a cursor that heads into the wall
/// at either end turns round with its first move and then walks, cell by
/// cell and without turning again, to the other end.
pub proof fn lemma_bounce_on_row(program: Seq<Seq<Pixel>>, width: nat, steps: nat)
    requires
        has_shape(program, width, 1),
        width <= usize::MAX,
        roadless(program),
        1 <= steps < width,
    ensures
        walk(program, MatrixPoint((width - 1) as usize, 0), Direction::East, steps) == Some(
            (MatrixPoint((width - 1 - steps) as usize, 0), Direction::West),
        ),
        walk(program, MatrixPoint(0, 0), Direction::West, steps) == Some(
            (MatrixPoint(steps as usize, 0), Direction::East),
        ),
    decreases steps,
{
    let east_end = MatrixPoint((width - 1) as usize, 0);
    let west_end = MatrixPoint(0, 0);
    if steps == 1 {
        reveal_with_fuel(walk, 2);
        lemma_route_cases(program, east_end, Direction::East);
        lemma_route_cases(program, west_end, Direction::West);
        assert(grid_cell(program, MatrixPoint((width - 2) as usize, 0)).is_some());
        assert(grid_cell(program, MatrixPoint(1, 0)).is_some());
    } else {
        lemma_bounce_on_row(program, width, (steps - 1) as nat);
        let going_west = MatrixPoint((width - steps) as usize, 0);
        let going_east = MatrixPoint((steps - 1) as usize, 0);
        lemma_route_cases(program, going_west, Direction::West);
        lemma_route_cases(program, going_east, Direction::East);
        assert(grid_cell(program, MatrixPoint((width - 1 - steps) as usize, 0)).is_some());
        assert(grid_cell(program, MatrixPoint(steps as usize, 0)).is_some());
    }
}

/// Bounce on a single column without roads: a cursor that heads into the
/// wall at either end turns round with its first move and then walks, cell
/// by cell and without turning again, to the other end.
pub proof fn lemma_bounce_on_column(program: Seq<Seq<Pixel>>, height: nat, steps: nat)
    requires
        has_shape(program, 1, height),
        height <= usize::MAX,
        roadless(program),
        1 <= steps < height,
    ensures
        walk(program, MatrixPoint(0, (height - 1) as usize), Direction::South, steps) == Some(
            (MatrixPoint(0, (height - 1 - steps) as usize), Direction::North),
        ),
        walk(program, MatrixPoint(0, 0), Direction::North, steps) == Some(
            (MatrixPoint(0, steps as usize), Direction::South),
        ),
    decreases steps,
{
    let south_end = MatrixPoint(0, (height - 1) as usize);
    let north_end = MatrixPoint(0, 0);
    if steps == 1 {
        reveal_with_fuel(walk, 2);
        lemma_route_cases(program, south_end, Direction::South);
        lemma_route_cases(program, north_end, Direction::North);
        assert(grid_cell(program, MatrixPoint(0, (height - 2) as usize)).is_some());
        assert(grid_cell(program, MatrixPoint(0, 1)).is_some());
    } else {
        lemma_bounce_on_column(program, height, (steps - 1) as nat);
        let going_north = MatrixPoint(0, (height - steps) as usize);
        let going_south = MatrixPoint(0, (steps - 1) as usize);
        lemma_route_cases(program, going_north, Direction::North);
        lemma_route_cases(program, going_south, Direction::South);
        assert(grid_cell(program, MatrixPoint(0, (height - 1 - steps) as usize)).is_some());
        assert(grid_cell(program, MatrixPoint(0, steps as usize)).is_some());
    }
}

} // verus!
