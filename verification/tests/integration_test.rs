use std::io::Cursor;
use std::str;

use image::{ImageOutputFormat, Rgba, RgbaImage};
use quilt_lang::hsl::Hsl;
use quilt_lang::matrix::MatrixPoint;
use quilt_lang::parser::{parse, pixels, ParseError};
use quilt_lang::vm::Fault;

/// A fully saturated colour of the given hue.
fn colour(hue: u16) -> Rgba<u8> {
    let h = f64::from(hue) / 60.0;
    let x = 1.0 - (h % 2.0 - 1.0).abs();
    let (r, g, b) = match hue / 60 {
        0 => (1.0, x, 0.0),
        1 => (x, 1.0, 0.0),
        2 => (0.0, 1.0, x),
        3 => (0.0, x, 1.0),
        4 => (x, 0.0, 1.0),
        _ => (1.0, 0.0, x),
    };
    let byte = |v: f64| (v * 255.0).round() as u8;
    Rgba([byte(r), byte(g), byte(b), 255])
}

/// A PNG file in memory in which each hue of `rows` fills a block of
/// `size` by `size` pixels.
fn png(rows: &[Vec<u16>], size: u32) -> Vec<u8> {
    let height = rows.len() as u32;
    let width = rows[0].len() as u32;
    let picture = RgbaImage::from_fn(width * size, height * size, |x, y| {
        colour(rows[(y / size) as usize][(x / size) as usize])
    });
    let mut file = Cursor::new(Vec::new());
    picture.write_to(&mut file, ImageOutputFormat::Png).unwrap();
    file.into_inner()
}

/// A one-row program that pushes `text` behind a zero, writes it with
/// `OutputUntil`, and then faults on an `Output` with nothing to pop.
fn hello_row(text: &str) -> Vec<u16> {
    let mut row = vec![300, 36, 0];
    for c in text.bytes().rev() {
        row.push(36);
        row.push(u16::from(c));
    }
    row.push(324);
    row.push(306);
    row
}

#[test]
fn test() {
    let file = png(&[hello_row("Hello world!")], 1);
    let (buffer, fault) = quilt_lang::run(&file, 1, 1000).unwrap();
    let s = str::from_utf8(&buffer).unwrap();
    assert_eq!(s, "Hello world!");
    assert_eq!(fault, Some(Fault::StackUnderflow));
}

#[test]
fn test1() {
    // The text is pushed on the way east along the first row; a road at its
    // end leads down to the second row and round to the west, where the
    // text is written.
    let mut top = hello_row("Hello world!\n");
    top.truncate(top.len() - 2);
    top.push(180);
    let mut bottom = vec![1; top.len()];
    let last = top.len() - 1;
    bottom[last] = 180;
    bottom[last - 1] = 180;
    bottom[last - 2] = 324;
    bottom[last - 3] = 306;
    let file = png(&[top, bottom], 1);
    let (buffer, fault) = quilt_lang::run(&file, 1, 1000).unwrap();
    let s = str::from_utf8(&buffer).unwrap();
    assert_eq!(s, "Hello world!\n");
    assert_eq!(fault, Some(Fault::StackUnderflow));
}

#[test]
fn test_run_with_blocks_of_three_pixels() {
    let file = png(&[hello_row("Hi")], 3);
    let (buffer, fault) = quilt_lang::run(&file, 3, 1000).unwrap();
    assert_eq!(buffer, b"Hi".to_vec());
    assert_eq!(fault, Some(Fault::StackUnderflow));
}

#[test]
fn test_run_stops_when_the_budget_is_spent() {
    // Nothing but no-ops: the cursor walks to and fro for ever.
    let file = png(&[vec![300, 10, 10, 10]], 1);
    let (buffer, fault) = quilt_lang::run(&file, 1, 500).unwrap();
    assert!(buffer.is_empty());
    assert_eq!(fault, None);
}

#[test]
fn test_run_rejects_what_is_no_image() {
    assert_eq!(quilt_lang::run(b"not an image", 1, 10), Err(ParseError::Undecodable));
    assert_eq!(quilt_lang::run(&[], 1, 10), Err(ParseError::Undecodable));
}

#[test]
fn test_run_rejects_a_pixel_size_that_does_not_divide() {
    let file = png(&[vec![300, 36, 1]], 1);
    assert_eq!(quilt_lang::run(&file, 2, 10), Err(ParseError::Dimensions));
    assert_eq!(quilt_lang::run(&file, 0, 10), Err(ParseError::Dimensions));
}

#[test]
fn test_pixels_decodes_hues_columns_and_rows() {
    let file = png(&[vec![300, 180, 36], vec![0, 120, 240]], 2);
    let cells = pixels(&file, 2).unwrap();
    let hues: Vec<(u32, u32, u16)> = cells.iter().map(|c| (c.0, c.1, c.2.h)).collect();
    assert_eq!(
        hues,
        vec![(0, 0, 300), (1, 0, 180), (2, 0, 36), (0, 1, 0), (1, 1, 120), (2, 1, 240)]
    );
    let program = parse(cells);
    assert_eq!(program.matrix.len(), 2);
    assert_eq!(program.matrix[1][2].point, MatrixPoint(2, 1));
    assert_eq!(program.matrix[1][2].hsl, Hsl { h: 240, s: 100, l: 50 });
}

#[test]
fn test_every_hue_survives_the_image() {
    let row: Vec<u16> = (0..360).collect();
    let file = png(&[row.clone()], 1);
    let cells = pixels(&file, 1).unwrap();
    let hues: Vec<u16> = cells.iter().map(|c| c.2.h).collect();
    assert_eq!(hues, row);
}

#[test]
fn test_an_image_without_columns_is_no_program() {
    // A GIF whose screen is 0 pixels wide and 2 high.
    let mut file = b"GIF89a".to_vec();
    file.extend_from_slice(&[0, 0, 2, 0, 0, 0, 0, 0x3b]);
    assert!(pixels(&file, 1).is_err());
    assert!(quilt_lang::run(&file, 1, 10).is_err());
}
