//! A two-dimensional grid and the points on it.

use vstd::prelude::*;
use crate::direction::Direction;

verus! {

/// A point on a grid: column `0` and row `1`, both counted from the top-left
/// corner.
#[derive(Clone, Copy, Debug, PartialEq, Eq, Structural)]
pub struct MatrixPoint(pub usize, pub usize);

impl Default for MatrixPoint {
    fn default() -> (p: MatrixPoint)
        ensures
            p == MatrixPoint(0, 0),
    {
        MatrixPoint(0, 0)
    }
}

impl MatrixPoint {
    /// The point one step away in `direction`, unless the step would take a
    /// coordinate below zero or beyond what a `usize` holds.
    pub open spec fn spec_neighbor(&self, direction: Direction) -> Option<MatrixPoint> {
        match direction {
            Direction::North => if self.1 == 0 {
                None
            } else {
                Some(MatrixPoint(self.0, (self.1 - 1) as usize))
            },
            Direction::West => if self.0 == 0 {
                None
            } else {
                Some(MatrixPoint((self.0 - 1) as usize, self.1))
            },
            Direction::South => if self.1 == usize::MAX {
                None
            } else {
                Some(MatrixPoint(self.0, (self.1 + 1) as usize))
            },
            Direction::East => if self.0 == usize::MAX {
                None
            } else {
                Some(MatrixPoint((self.0 + 1) as usize, self.1))
            },
        }
    }

    /// The point one step away in `direction`.
    #[verifier::when_used_as_spec(spec_neighbor)]
    pub fn neighbor(&self, direction: Direction) -> (r: Option<MatrixPoint>)
        ensures
            r == self.spec_neighbor(direction),
    {
        match direction {
            Direction::North => if self.1 == 0 {
                None
            } else {
                Some(MatrixPoint(self.0, self.1 - 1))
            },
            Direction::West => if self.0 == 0 {
                None
            } else {
                Some(MatrixPoint(self.0 - 1, self.1))
            },
            Direction::South => if self.1 == usize::MAX {
                None
            } else {
                Some(MatrixPoint(self.0, self.1 + 1))
            },
            Direction::East => if self.0 == usize::MAX {
                None
            } else {
                Some(MatrixPoint(self.0 + 1, self.1))
            },
        }
    }
}

/// A grid stored row by row.
#[derive(Debug, PartialEq)]
pub struct Matrix<T> {
    pub matrix: Vec<Vec<T>>,
}

impl<T> View for Matrix<T> {
    type V = Seq<Seq<T>>;

    /// The rows of the grid, each as the sequence of its cells.
    open spec fn view(&self) -> Seq<Seq<T>> {
        Seq::new(self.matrix@.len(), |y: int| self.matrix@[y]@)
    }
}

/// Whether `point` lies on `grid`.
pub open spec fn grid_contains<T>(grid: Seq<Seq<T>>, point: MatrixPoint) -> bool {
    point.1 < grid.len() && point.0 < grid[point.1 as int].len()
}

/// The cell of `grid` at `point`, if `point` lies on it.
pub open spec fn grid_cell<T>(grid: Seq<Seq<T>>, point: MatrixPoint) -> Option<T> {
    if grid_contains(grid, point) {
        Some(grid[point.1 as int][point.0 as int])
    } else {
        None
    }
}

/// The point one step from `point` in `direction`, where `grid` has a cell
/// there.
pub open spec fn grid_neighbor<T>(
    grid: Seq<Seq<T>>,
    point: MatrixPoint,
    direction: Direction,
) -> Option<MatrixPoint> {
    match point.spec_neighbor(direction) {
        Some(next) => if grid_contains(grid, next) {
            Some(next)
        } else {
            None
        },
        None => None,
    }
}

/// The cell of `grid` one step from `point` in `direction`.
pub open spec fn grid_go<T>(grid: Seq<Seq<T>>, point: MatrixPoint, direction: Direction) -> Option<
    T,
> {
    match point.spec_neighbor(direction) {
        Some(next) => grid_cell(grid, next),
        None => None,
    }
}

/// The cell of `grid` one step from `point` in `dir1` and then one in `dir2`.
pub open spec fn grid_corner<T>(
    grid: Seq<Seq<T>>,
    point: MatrixPoint,
    dir1: Direction,
    dir2: Direction,
) -> Option<T> {
    match point.spec_neighbor(dir1) {
        Some(next) => grid_go(grid, next, dir2),
        None => None,
    }
}

/// Whether `grid` has `height` rows of `width` cells each.
pub open spec fn has_shape<T>(grid: Seq<Seq<T>>, width: nat, height: nat) -> bool {
    &&& grid.len() == height
    &&& forall|y: int| 0 <= y < height ==> (#[trigger] grid[y]).len() == width
}

impl<T: Copy> Matrix<T> {
    /// Whether `point` lies on the grid.
    pub open spec fn contains(&self, point: MatrixPoint) -> bool {
        grid_contains(self@, point)
    }

    /// The cell at `point`, if `point` lies on the grid.
    pub open spec fn cell(&self, point: MatrixPoint) -> Option<T> {
        grid_cell(self@, point)
    }

    /// The point one step from `point` in `direction`, where the grid has a
    /// cell there.
    pub open spec fn spec_neighbor(&self, point: MatrixPoint, direction: Direction) -> Option<
        MatrixPoint,
    > {
        grid_neighbor(self@, point, direction)
    }

    /// The cell one step from `point` in `direction`.
    pub open spec fn spec_go(&self, point: MatrixPoint, direction: Direction) -> Option<T> {
        grid_go(self@, point, direction)
    }

    /// The cell one step from `point` in `dir1` and then one step in `dir2`.
    pub open spec fn spec_corner(
        &self,
        point: MatrixPoint,
        dir1: Direction,
        dir2: Direction,
    ) -> Option<T> {
        grid_corner(self@, point, dir1, dir2)
    }

    pub fn new(matrix: Vec<Vec<T>>) -> (m: Matrix<T>)
        ensures
            m.matrix == matrix,
    {
        Matrix { matrix }
    }

    /// The cell at `point`, or `None` where `point` lies off the grid.
    pub fn get(&self, point: MatrixPoint) -> (r: Option<T>)
        ensures
            r == self.cell(point),
    {
        if point.1 < self.matrix.len() {
            let row = &self.matrix[point.1];
            if point.0 < row.len() {
                return Some(row[point.0]);
            }
        }
        None
    }

    /// The point one step from `point` in `direction`, or `None` where the
    /// step would leave the grid.
    pub fn neighbor(&self, point: MatrixPoint, direction: Direction) -> (r: Option<MatrixPoint>)
        ensures
            r == self.spec_neighbor(point, direction),
    {
        match point.neighbor(direction) {
            Some(next) => if self.get(next).is_some() {
                Some(next)
            } else {
                None
            },
            None => None,
        }
    }

    /// The cell one step from `point` in `direction`, or `None` where there
    /// is no such cell.
    pub fn go(&self, point: MatrixPoint, direction: Direction) -> (r: Option<T>)
        ensures
            r == self.spec_go(point, direction),
    {
        match point.neighbor(direction) {
            Some(next) => self.get(next),
            None => None,
        }
    }

    /// Replaces the cell at `point`, which lies on the grid, and leaves
    /// every other cell as it was.
    pub fn set(&mut self, point: MatrixPoint, value: T)
        requires
            old(self).contains(point),
        ensures
            final(self)@ == old(self)@.update(
                point.1 as int,
                old(self)@[point.1 as int].update(point.0 as int, value),
            ),
    {
        self.matrix[point.1][point.0] = value;
    }

    /// The cell reached from `point` by one step in `dir1` and one in `dir2`.
    pub fn corner(&self, point: MatrixPoint, dir1: Direction, dir2: Direction) -> (r: Option<T>)
        ensures
            r == self.spec_corner(point, dir1, dir2),
    {
        match point.neighbor(dir1) {
            Some(next) => self.go(next, dir2),
            None => None,
        }
    }
}

/// Neighbour safety: a step from a point on a grid leads to the point in the
/// next column or row, the other coordinate unchanged, where the grid has a
/// cell there, and to nothing where it has none. No step wraps round to
/// another edge.
pub proof fn lemma_neighbor_safety<T: Copy>(grid: Matrix<T>, point: MatrixPoint, direction: Direction)
    requires
        grid.contains(point),
    ensures
        match grid.spec_neighbor(point, direction) {
            Some(next) => {
                &&& grid.contains(next)
                &&& next.0 == point.0 + direction.column_step()
                &&& next.1 == point.1 + direction.row_step()
                &&& grid.spec_go(point, direction) == grid.cell(next)
            },
            None => {
                &&& grid.spec_go(point, direction).is_none()
                &&& !({
                    &&& 0 <= point.1 + direction.row_step() < grid@.len()
                    &&& 0 <= point.0 + direction.column_step() < grid@[point.1
                        + direction.row_step()].len()
                })
            },
        },
        point.spec_neighbor(direction).is_none() ==> point.0 + direction.column_step() < 0
            || point.1 + direction.row_step() < 0,
{
    // Rows and cells are counted in `usize`, so a point on the grid has a
    // successor in either coordinate.
    assert(grid.matrix.len() == grid@.len());
    assert(grid.matrix[point.1 as int].len() == grid@[point.1 as int].len());
}

impl<T: Copy> vstd::std_specs::core::IndexSpecImpl<MatrixPoint> for Matrix<T> {
    /// Indexing is for points that lie on the grid.
    open spec fn index_req(&self, index: &MatrixPoint) -> bool {
        self.contains(*index)
    }
}

impl<T: Copy> std::ops::Index<MatrixPoint> for Matrix<T> {
    type Output = T;

    fn index(&self, index: MatrixPoint) -> (r: &T)
        ensures
            Some(*r) == self.cell(index),
    {
        &self.matrix[index.1][index.0]
    }
}

} // verus!
