use quilt_lang::direction::Direction;
use quilt_lang::editor::{command, parse_hue, Action, ImageEditor, Key, State, MAX_HUE};
use quilt_lang::hsl::Hsl;
use quilt_lang::matrix::{Matrix, MatrixPoint};
use quilt_lang::pixel::Pixel;

fn editor(rows: Vec<Vec<u16>>) -> ImageEditor {
    let mut grid = vec![];
    for (y, row) in rows.iter().enumerate() {
        let mut cells = vec![];
        for (x, hue) in row.iter().enumerate() {
            cells.push(Pixel::new(Hsl { h: *hue, s: 80, l: 40 }, MatrixPoint(x, y)));
        }
        grid.push(cells);
    }
    ImageEditor::new(Matrix::new(grid), 1)
}

fn chars(text: &str) -> Vec<char> {
    text.chars().collect()
}

fn type_line(e: &mut ImageEditor, text: &str) -> Action {
    for c in text.chars() {
        assert_eq!(e.handle_key(Key::Char(c)), Action::Continue);
    }
    e.handle_key(Key::Char('\n'))
}

#[test]
fn test_new_editor() {
    let e = editor(vec![vec![1, 2], vec![3, 4]]);
    assert_eq!(e.position(), MatrixPoint(0, 0));
    assert_eq!(e.state(), State::Normal);
    assert!(e.input().is_empty());
    assert_eq!(e.pixel_size(), 1);
    assert_eq!(e.current().unwrap().value(), 1);
    assert_eq!(e.pixels().matrix[1][1].value(), 4);
}

#[test]
fn test_go_stops_at_the_edge() {
    let mut e = editor(vec![vec![1, 2, 3], vec![4, 5, 6]]);
    e.go(Direction::East, 1);
    assert_eq!(e.position(), MatrixPoint(1, 0));
    e.go(Direction::East, 5);
    assert_eq!(e.position(), MatrixPoint(2, 0));
    e.go(Direction::South, 2);
    assert_eq!(e.position(), MatrixPoint(2, 1));
    e.go(Direction::West, 2);
    assert_eq!(e.position(), MatrixPoint(0, 1));
    e.go(Direction::North, 0);
    assert_eq!(e.position(), MatrixPoint(0, 1));
    e.go(Direction::North, 7);
    assert_eq!(e.position(), MatrixPoint(0, 0));
    e.go(Direction::West, 1);
    assert_eq!(e.position(), MatrixPoint(0, 0));
}

#[test]
fn test_keys_move_the_cursor() {
    let mut e = editor(vec![vec![1, 2], vec![3, 4]]);
    assert_eq!(e.handle_key(Key::Char('l')), Action::Continue);
    assert_eq!(e.position(), MatrixPoint(1, 0));
    e.handle_key(Key::Down);
    assert_eq!(e.position(), MatrixPoint(1, 1));
    e.handle_key(Key::Char('h'));
    assert_eq!(e.position(), MatrixPoint(0, 1));
    e.handle_key(Key::Char('k'));
    assert_eq!(e.position(), MatrixPoint(0, 0));
    e.handle_key(Key::Right);
    e.handle_key(Key::Char('j'));
    e.handle_key(Key::Left);
    e.handle_key(Key::Up);
    assert_eq!(e.position(), MatrixPoint(0, 0));
    e.handle_key(Key::Char('x'));
    e.handle_key(Key::Other);
    e.handle_key(Key::Backspace);
    assert_eq!(e.position(), MatrixPoint(0, 0));
    assert_eq!(e.state(), State::Normal);
}

#[test]
fn test_quit_keys() {
    let mut e = editor(vec![vec![1]]);
    assert_eq!(e.handle_key(Key::Char('q')), Action::Quit);
    assert_eq!(e.handle_key(Key::Ctrl('c')), Action::Quit);
    assert_eq!(e.handle_key(Key::Ctrl('d')), Action::Continue);
    // In the other modes neither leaves.
    e.handle_key(Key::Char('r'));
    assert_eq!(e.handle_key(Key::Char('q')), Action::Continue);
    assert_eq!(e.input(), &chars("q"));
    assert_eq!(e.handle_key(Key::Ctrl('c')), Action::Continue);
    assert_eq!(e.state(), State::Normal);
    assert!(e.input().is_empty());
}

#[test]
fn test_replace_mode() {
    let mut e = editor(vec![vec![1, 2], vec![3, 4]]);
    e.go(Direction::East, 1);
    e.handle_key(Key::Char('r'));
    assert_eq!(e.state(), State::Replace);
    assert_eq!(type_line(&mut e, "180"), Action::Continue);
    assert_eq!(e.state(), State::Normal);
    assert!(e.input().is_empty());
    assert_eq!(e.current().unwrap().hsl, Hsl { h: 180, s: 80, l: 40 });
    assert_eq!(e.current().unwrap().point, MatrixPoint(1, 0));
    assert_eq!(e.pixels().matrix[0][0].value(), 1);
    assert_eq!(e.pixels().matrix[1][1].value(), 4);
}

#[test]
fn test_replace_clamps() {
    let mut e = editor(vec![vec![1]]);
    e.replace_current(360);
    assert_eq!(e.current().unwrap().value(), MAX_HUE);
    e.replace_current(65535);
    assert_eq!(e.current().unwrap().value(), 359);
    e.replace_current(0);
    assert_eq!(e.current().unwrap().value(), 0);
}

#[test]
fn test_replace_with_what_is_no_hue_changes_nothing() {
    for text in ["", "abc", "12a", "-1", "65536", "1 2", "+"] {
        let mut e = editor(vec![vec![7]]);
        e.handle_key(Key::Char('r'));
        assert_eq!(type_line(&mut e, text), Action::Continue);
        assert_eq!(e.state(), State::Normal);
        assert_eq!(e.current().unwrap().value(), 7);
    }
}

#[test]
fn test_repeat() {
    let mut e = editor(vec![vec![1, 2]]);
    e.repeat();
    assert_eq!(e.current().unwrap().value(), 1);
    e.replace_current(400);
    e.go(Direction::East, 1);
    e.repeat();
    assert_eq!(e.current().unwrap().value(), 359);
}

#[test]
fn test_replace_off_the_grid_does_nothing() {
    let mut e = ImageEditor::new(Matrix::new(vec![]), 1);
    e.replace_current(5);
    assert_eq!(e.current(), None);
    e.repeat();
    e.go(Direction::East, 3);
    assert_eq!(e.position(), MatrixPoint(0, 0));
}

#[test]
fn test_backspace_and_escape() {
    let mut e = editor(vec![vec![1]]);
    e.handle_key(Key::Char(':'));
    assert_eq!(e.state(), State::Command);
    e.handle_key(Key::Char('w'));
    e.handle_key(Key::Char('x'));
    e.handle_key(Key::Backspace);
    assert_eq!(e.input(), &chars("w"));
    e.handle_key(Key::Backspace);
    e.handle_key(Key::Backspace);
    assert!(e.input().is_empty());
    e.handle_key(Key::Char('q'));
    e.handle_key(Key::Esc);
    assert_eq!(e.state(), State::Normal);
    assert!(e.input().is_empty());
}

#[test]
fn test_commands() {
    let lines = [
        ("w", Action::Save),
        ("wq", Action::SaveAndQuit),
        ("q", Action::Quit),
        ("quit", Action::Quit),
        ("", Action::Continue),
        ("x", Action::Continue),
        ("qw", Action::Continue),
        ("quit ", Action::Continue),
        ("wqq", Action::Continue),
    ];
    for (line, action) in lines {
        assert_eq!(command(&chars(line)), action);
        let mut e = editor(vec![vec![1]]);
        e.handle_key(Key::Char(':'));
        assert_eq!(type_line(&mut e, line), action);
        assert_eq!(e.state(), State::Normal);
        assert!(e.input().is_empty());
    }
}

#[test]
fn test_submit_and_set_state() {
    let mut e = editor(vec![vec![1]]);
    e.set_state(State::Replace);
    e.push('4');
    e.push('2');
    e.pop();
    e.push('3');
    assert_eq!(e.submit(), chars("43"));
    assert_eq!(e.state(), State::Normal);
    assert!(e.input().is_empty());
    e.pop();
    assert!(e.input().is_empty());
}

#[test]
fn test_parse_hue() {
    assert_eq!(parse_hue(&chars("0")), Some(0));
    assert_eq!(parse_hue(&chars("007")), Some(7));
    assert_eq!(parse_hue(&chars("+12")), Some(12));
    assert_eq!(parse_hue(&chars("65535")), Some(65535));
    assert_eq!(parse_hue(&chars("65536")), None);
    assert_eq!(parse_hue(&chars("99999999999999999999")), None);
    assert_eq!(parse_hue(&chars("")), None);
    assert_eq!(parse_hue(&chars("+")), None);
    assert_eq!(parse_hue(&chars("++1")), None);
    assert_eq!(parse_hue(&chars("-1")), None);
    assert_eq!(parse_hue(&chars(" 1")), None);
    assert_eq!(parse_hue(&chars("1x")), None);
    for text in ["0", "007", "+12", "65535", "65536", "", "+", "-1", " 1", "1x", "٣"] {
        assert_eq!(parse_hue(&chars(text)), text.parse::<u16>().ok());
    }
}
