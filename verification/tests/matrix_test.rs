use quilt_lang::direction::Direction;
use quilt_lang::matrix::{Matrix, MatrixPoint};

fn create_test_matrix() -> Matrix<usize> {
    let r1 = vec![1, 2, 3];
    let r2 = vec![4, 5, 6];
    let r3 = vec![7, 8, 9];
    let v = vec![r1, r2, r3];
    Matrix::new(v)
}

#[test]
fn test_go_boundaries() {
    let m = create_test_matrix();
    assert_eq!(m.go(MatrixPoint(0, 0), Direction::North), None);
    assert_eq!(m.go(MatrixPoint(0, 0), Direction::West), None);
    assert_eq!(m.go(MatrixPoint(2, 2), Direction::East), None);
    assert_eq!(m.go(MatrixPoint(2, 2), Direction::South), None);
}

#[test]
fn test_go_happy() {
    let m = create_test_matrix();
    let p = MatrixPoint(1, 1);

    assert_eq!(m.go(p, Direction::North).unwrap(), 2);
    assert_eq!(m.go(p, Direction::West).unwrap(), 4);
    assert_eq!(m.go(p, Direction::East).unwrap(), 6);
    assert_eq!(m.go(p, Direction::South).unwrap(), 8);
}

#[test]
fn test_index() {
    let mut m = create_test_matrix();
    let p = MatrixPoint(1, 1);
    assert_eq!(m[p], 5);

    m.set(p, 1337);
    assert_eq!(m[p], 1337);
}

#[test]
fn test_get_inside_and_outside() {
    let m = create_test_matrix();
    assert_eq!(m.get(MatrixPoint(0, 0)), Some(1));
    assert_eq!(m.get(MatrixPoint(2, 1)), Some(6));
    assert_eq!(m.get(MatrixPoint(3, 0)), None);
    assert_eq!(m.get(MatrixPoint(0, 3)), None);
}

#[test]
fn test_get_on_ragged_rows() {
    let m: Matrix<u8> = Matrix::new(vec![vec![1], vec![], vec![2, 3]]);
    assert_eq!(m.get(MatrixPoint(0, 1)), None);
    assert_eq!(m.get(MatrixPoint(1, 2)), Some(3));
    assert_eq!(m.go(MatrixPoint(0, 0), Direction::South), None);
}

#[test]
fn test_set_leaves_other_cells() {
    let mut m = create_test_matrix();
    m.set(MatrixPoint(2, 0), 30);
    assert_eq!(m.matrix, vec![vec![1, 2, 30], vec![4, 5, 6], vec![7, 8, 9]]);
}

#[test]
fn test_corner() {
    let m = create_test_matrix();
    let p = MatrixPoint(1, 1);
    assert_eq!(m.corner(p, Direction::North, Direction::West), Some(1));
    assert_eq!(m.corner(p, Direction::North, Direction::East), Some(3));
    assert_eq!(m.corner(p, Direction::South, Direction::West), Some(7));
    assert_eq!(m.corner(p, Direction::South, Direction::East), Some(9));
    assert_eq!(m.corner(MatrixPoint(0, 0), Direction::North, Direction::East), None);
    assert_eq!(m.corner(MatrixPoint(2, 2), Direction::West, Direction::South), None);
}

#[test]
fn test_neighbor_steps() {
    let p = MatrixPoint(3, 4);
    assert_eq!(p.neighbor(Direction::North), Some(MatrixPoint(3, 3)));
    assert_eq!(p.neighbor(Direction::South), Some(MatrixPoint(3, 5)));
    assert_eq!(p.neighbor(Direction::West), Some(MatrixPoint(2, 4)));
    assert_eq!(p.neighbor(Direction::East), Some(MatrixPoint(4, 4)));
}

#[test]
fn test_neighbor_never_wraps() {
    let origin = MatrixPoint(0, 0);
    assert_eq!(origin.neighbor(Direction::North), None);
    assert_eq!(origin.neighbor(Direction::West), None);
    let far = MatrixPoint(usize::MAX, usize::MAX);
    assert_eq!(far.neighbor(Direction::South), None);
    assert_eq!(far.neighbor(Direction::East), None);
}

#[test]
fn test_default_point_is_origin() {
    assert_eq!(MatrixPoint::default(), MatrixPoint(0, 0));
}

#[test]
fn test_direction_algebra() {
    for d in [Direction::North, Direction::East, Direction::South, Direction::West] {
        assert_eq!(d.opposite().opposite(), d);
        assert_eq!(
            d.counter_clockwise().counter_clockwise().counter_clockwise().counter_clockwise(),
            d
        );
        assert_eq!(d.counter_clockwise().counter_clockwise(), d.opposite());
    }
    assert_eq!(Direction::East.counter_clockwise().opposite(), Direction::South);
    assert_eq!(Direction::South.counter_clockwise().opposite(), Direction::West);
    assert_eq!(Direction::West.counter_clockwise().opposite(), Direction::North);
    assert_eq!(Direction::North.counter_clockwise().opposite(), Direction::East);
}

#[test]
fn test_neighbor_on_the_grid() {
    let m = create_test_matrix();
    let p = MatrixPoint(1, 1);
    assert_eq!(m.neighbor(p, Direction::North), Some(MatrixPoint(1, 0)));
    assert_eq!(m.neighbor(p, Direction::East), Some(MatrixPoint(2, 1)));
    assert_eq!(m.neighbor(MatrixPoint(0, 0), Direction::North), None);
    assert_eq!(m.neighbor(MatrixPoint(0, 0), Direction::West), None);
    assert_eq!(m.neighbor(MatrixPoint(2, 2), Direction::South), None);
    assert_eq!(m.neighbor(MatrixPoint(2, 2), Direction::East), None);
    assert_eq!(m.neighbor(MatrixPoint(9, 9), Direction::West), None);
}
