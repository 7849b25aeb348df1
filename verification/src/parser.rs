//! From the pixels of an image to the grid of a program.

use vstd::prelude::*;
use vstd::arithmetic::div_mod::{
    lemma_div_pos_is_pos, lemma_fundamental_div_mod, lemma_fundamental_div_mod_converse,
    lemma_mod_bound,
};
use crate::hsl::{hsl_of, Hsl};
use crate::matrix::{has_shape, Matrix, MatrixPoint};
use crate::matrix::grid_cell;
use crate::pixel::{well_formed, Pixel};

verus! {

/// Why an image is not a program.
#[derive(Clone, Copy, Debug, PartialEq, Eq, Structural)]
pub enum ParseError {
    /// The bytes are not an image that can be decoded into samples of whole
    /// numbers.
    Undecodable,
    /// The pixel size is zero, or the width or the height of the image is
    /// not a multiple of it.
    Dimensions,
    /// The image holds no pixel.
    Empty,
}

/// Whether a pixel of the image is the top-left one of a block of `size` by
/// `size` pixels.
pub open spec fn leads_block(pixel: (u32, u32, [u8; 4]), size: u32) -> bool {
    pixel.0 % size == 0 && pixel.1 % size == 0
}

/// The cell that a block stands for: the column and row of the block, and
/// the colour of the pixel that leads it. The fourth sample, the opacity, is
/// not looked at.
pub open spec fn block_cell(pixel: (u32, u32, [u8; 4]), size: u32) -> (u32, u32, Hsl) {
    (pixel.0 / size, pixel.1 / size, hsl_of(pixel.2[0], pixel.2[1], pixel.2[2]))
}

/// The cells of an image whose blocks are `size` pixels wide and high: one
/// for each pixel that leads a block, in the order of the pixels.
pub open spec fn sampled(image: Seq<(u32, u32, [u8; 4])>, size: u32) -> Seq<(u32, u32, Hsl)>
    decreases image.len(),
{
    if image.len() == 0 {
        Seq::empty()
    } else if leads_block(image.last(), size) {
        sampled(image.drop_last(), size).push(block_cell(image.last(), size))
    } else {
        sampled(image.drop_last(), size)
    }
}

/// What sampling an image of `width` by `height` pixels gives.
pub open spec fn sample_spec(
    width: u32,
    height: u32,
    image: Seq<(u32, u32, [u8; 4])>,
    size: u32,
) -> Result<Seq<(u32, u32, Hsl)>, ParseError> {
    if size == 0 || width % size != 0 || height % size != 0 {
        Err(ParseError::Dimensions)
    } else if sampled(image, size).len() == 0 {
        Err(ParseError::Empty)
    } else {
        Ok(sampled(image, size))
    }
}

/// Takes one pixel of each block of `pixel_size` by `pixel_size` pixels, the
/// top-left one, and gives its colour with the column and row of the block.
pub fn sample(width: u32, height: u32, image: &Vec<(u32, u32, [u8; 4])>, pixel_size: u32) -> (r:
    Result<Vec<(u32, u32, Hsl)>, ParseError>)
    ensures
        match sample_spec(width, height, image@, pixel_size) {
            Ok(cells) => r.is_ok() && r.unwrap()@ == cells,
            Err(error) => r == Err::<Vec<(u32, u32, Hsl)>, ParseError>(error),
        },
{
    if pixel_size == 0 || width % pixel_size != 0 || height % pixel_size != 0 {
        return Err(ParseError::Dimensions);
    }
    let mut cells: Vec<(u32, u32, Hsl)> = Vec::new();
    let mut i: usize = 0;
    while i < image.len()
        invariant
            i <= image.len(),
            pixel_size != 0,
            cells@ == sampled(image@.take(i as int), pixel_size),
        decreases image.len() - i,
    {
        let (x, y, samples) = image[i];
        assert(image@.take(i + 1).drop_last() == image@.take(i as int));
        if x % pixel_size == 0 && y % pixel_size == 0 {
            cells.push(
                (x / pixel_size, y / pixel_size, Hsl::from_rgb(samples[0], samples[1], samples[2])),
            );
        }
        i += 1;
    }
    assert(image@.take(i as int) == image@);
    if cells.len() == 0 {
        return Err(ParseError::Empty);
    }
    Ok(cells)
}

/// The error type of the `image` crate. Nothing is read of it: every
/// failure to decode is one `ParseError`.
#[verifier::external_type_specification]
#[verifier::external_body]
pub struct ExImageError(image::ImageError);

/// A decoded image of the `image` crate. What it holds is read through
/// `width_of`, `height_of` and `sample_at`.
#[verifier::external_type_specification]
#[verifier::external_body]
pub struct ExDynamicImage(image::DynamicImage);

/// What a decoded image holds: its width, its height, and its pixels row by
/// row, each with its four samples red, green, blue and opacity.
pub uninterp spec fn held(picture: image::DynamicImage) -> (u32, u32, Seq<[u8; 4]>);

/// Whether the samples of a decoded image are stored as whole numbers, not
/// as fractions.
pub uninterp spec fn whole(picture: image::DynamicImage) -> bool;

/// What the `image` crate decodes `bytes` to; `None` where it does not
/// decode them.
pub uninterp spec fn decoded(bytes: Seq<u8>) -> Option<(u32, u32, Seq<[u8; 4]>)>;

/// Whether the `image` crate decodes `bytes` to an image whose samples are
/// stored as fractions.
pub uninterp spec fn fractional(bytes: Seq<u8>) -> bool;

/// Decodes an image held in memory with `image::load_from_memory`, which
/// tells the format from the first bytes. Claimed, and not proved: that the
/// outcome is the value of `decoded` on these bytes, and the way its samples
/// are stored the value of `fractional`, the same whenever the same bytes
/// are decoded.
#[verifier::external_body]
fn load_image(bytes: &[u8]) -> (r: Result<image::DynamicImage, image::ImageError>)
    ensures
        match r {
            Ok(picture) => decoded(bytes@) == Some(held(picture)) && whole(picture)
                == !fractional(bytes@),
            Err(_) => decoded(bytes@).is_none(),
        },
{
    image::load_from_memory(bytes)
}

/// Tells the two variants of `image::DynamicImage` that store their samples
/// as fractions from the others. Claimed, and not proved: that the answer is
/// the value of `whole`.
#[verifier::external_body]
fn has_whole_samples(picture: &image::DynamicImage) -> (b: bool)
    ensures
        b == whole(*picture),
{
    !matches!(
        picture,
        image::DynamicImage::ImageRgb32F(_) | image::DynamicImage::ImageRgba32F(_)
    )
}

/// The width of a decoded image, by `DynamicImage::width`. Claimed, and not
/// proved: that it is the width that `held` names.
#[verifier::external_body]
fn width_of(picture: &image::DynamicImage) -> (width: u32)
    ensures
        width == held(*picture).0,
{
    picture.width()
}

/// The height of a decoded image, by `DynamicImage::height`. Claimed, and
/// not proved: that it is the height that `held` names.
#[verifier::external_body]
fn height_of(picture: &image::DynamicImage) -> (height: u32)
    ensures
        height == held(*picture).1,
{
    picture.height()
}

/// The pixel in column `x` of row `y` of a decoded image, by
/// `GenericImageView::get_pixel`. That call panics off the image, so the
/// column lies below the width and the row below the height; and it panics
/// where it turns a fraction that is no number into a whole sample, so the
/// samples are stored as whole numbers. Claimed, and not proved: that the
/// pixel is the one that `held` names at that place.
#[verifier::external_body]
fn sample_at(picture: &image::DynamicImage, x: u32, y: u32) -> (samples: [u8; 4])
    requires
        whole(*picture),
        x < held(*picture).0,
        y < held(*picture).1,
    ensures
        samples == held(*picture).2[y * held(*picture).0 + x],
{
    image::GenericImageView::get_pixel(picture, x, y).0
}

/// The pixels of an image of `width` by `height`, row by row and each row
/// from the left, each with its column and its row.
pub open spec fn listed(width: u32, height: u32, samples: Seq<[u8; 4]>) -> Seq<
    (u32, u32, [u8; 4]),
> {
    Seq::new(
        (width * height) as nat,
        |k: int| ((k % (width as int)) as u32, (k / (width as int)) as u32, samples[k]),
    )
}

/// The pixels of an image are listed in raster order.
pub proof fn lemma_listed_in_raster_order(width: u32, height: u32, samples: Seq<[u8; 4]>)
    ensures
        in_raster_order(listed(width, height, samples), width as nat, height as nat),
{
    let list = listed(width, height, samples);
    let w = width as int;
    assert(list.len() == (width as nat) * (height as nat)) by (nonlinear_arith)
        requires
            list.len() == (width * height) as nat,
    ;
    assert forall|k: int| 0 <= k < list.len() implies (#[trigger] list[k]).0 == k % w && list[k].1
        == k / w by {
        assert(w >= 1) by (nonlinear_arith)
            requires
                0 <= k < width * height,
                w == width,
                height >= 0,
        ;
        lemma_fundamental_div_mod(k, w);
        lemma_mod_bound(k, w);
        lemma_div_pos_is_pos(k, w);
        assert(k / w < height) by (nonlinear_arith)
            requires
                k == w * (k / w) + k % w,
                0 <= k % w < w,
                k < w * height,
        ;
    }
}

/// Lists the pixels of a decoded image, row by row and each row from the
/// left.
fn list_pixels(picture: &image::DynamicImage) -> (list: Vec<(u32, u32, [u8; 4])>)
    requires
        whole(*picture),
    ensures
        list@ == listed(held(*picture).0, held(*picture).1, held(*picture).2),
{
    let width = width_of(picture);
    let height = height_of(picture);
    let ghost w = width as int;
    let mut list: Vec<(u32, u32, [u8; 4])> = Vec::new();
    let mut y: u32 = 0;
    while y < height
        invariant
            y <= height,
            whole(*picture),
            width == held(*picture).0,
            height == held(*picture).1,
            w == width,
            list@.len() == y * w,
            forall|k: int|
                0 <= k < list@.len() ==> #[trigger] list@[k] == listed(
                    width,
                    height,
                    held(*picture).2,
                )[k],
        decreases height - y,
    {
        let mut x: u32 = 0;
        while x < width
            invariant
                x <= width,
                y < height,
                whole(*picture),
                width == held(*picture).0,
                height == held(*picture).1,
                w == width,
                list@.len() == y * w + x,
                forall|k: int|
                    0 <= k < list@.len() ==> #[trigger] list@[k] == listed(
                        width,
                        height,
                        held(*picture).2,
                    )[k],
            decreases width - x,
        {
            let samples = sample_at(picture, x, y);
            proof {
                let k = y * w + x;
                assert(k == y as int * w + x);
                lemma_fundamental_div_mod_converse(k, w, y as int, x as int);
                assert(0 <= k < width * height) by (nonlinear_arith)
                    requires
                        k == y * w + x,
                        0 <= x < w,
                        0 <= y < height,
                        w == width,
                ;
            }
            list.push((x, y, samples));
            x += 1;
        }
        proof {
            assert((y + 1) * w == y * w + w) by (nonlinear_arith);
        }
        y += 1;
    }
    proof {
        assert(height * w == width * height) by (nonlinear_arith)
            requires
                w == width,
        ;
    }
    list
}

/// The cells of the image that `bytes` encode, for blocks of `pixel_size`
/// pixels: what `sample` makes of the pixels of the decoded image. An image
/// whose samples are stored as fractions counts as not decoded.
pub open spec fn pixels_spec(bytes: Seq<u8>, pixel_size: u32) -> Result<
    Seq<(u32, u32, Hsl)>,
    ParseError,
> {
    match decoded(bytes) {
        Some((width, height, samples)) => if fractional(bytes) {
            Err(ParseError::Undecodable)
        } else {
            sample_spec(width, height, listed(width, height, samples), pixel_size)
        },
        None => Err(ParseError::Undecodable),
    }
}

/// Decodes the image that `bytes` encode and samples it: one cell for each
/// block of `pixel_size` by `pixel_size` pixels.
pub fn pixels(bytes: &[u8], pixel_size: u32) -> (r: Result<Vec<(u32, u32, Hsl)>, ParseError>)
    ensures
        match pixels_spec(bytes@, pixel_size) {
            Ok(cells) => r.is_ok() && r.unwrap()@ == cells,
            Err(error) => r == Err::<Vec<(u32, u32, Hsl)>, ParseError>(error),
        },
{
    match load_image(bytes) {
        Ok(picture) => {
            if !has_whole_samples(&picture) {
                return Err(ParseError::Undecodable);
            }
            let image = list_pixels(&picture);
            sample(width_of(&picture), height_of(&picture), &image, pixel_size)
        },
        Err(_) => Err(ParseError::Undecodable),
    }
}

/// The row coordinate of the pixel before the `i`-th; 0 before the first.
pub open spec fn row_before(pixels: Seq<(u32, u32, Hsl)>, i: int) -> u32 {
    if i <= 0 {
        0
    } else {
        pixels[i - 1].1
    }
}

/// The cell that a pixel becomes.
pub open spec fn cell_of(pixel: (u32, u32, Hsl)) -> Pixel {
    Pixel { hsl: pixel.2, point: MatrixPoint(pixel.0 as usize, pixel.1 as usize) }
}

/// The pixels gathered into rows: a new row begins with each pixel whose row
/// coordinate differs from that of the pixel before it.
pub open spec fn rows_of(pixels: Seq<(u32, u32, Hsl)>) -> Seq<Seq<Pixel>>
    decreases pixels.len(),
{
    if pixels.len() == 0 {
        seq![Seq::empty()]
    } else {
        let before = rows_of(pixels.drop_last());
        let cell = cell_of(pixels.last());
        if pixels.last().1 != row_before(pixels, pixels.len() - 1) {
            before.push(seq![cell])
        } else {
            before.drop_last().push(before.last().push(cell))
        }
    }
}

/// Gathers pixels that come row by row into the grid of a program.
pub fn parse(pixels: Vec<(u32, u32, Hsl)>) -> (program: Matrix<Pixel>)
    ensures
        program@ == rows_of(pixels@),
{
    let mut rows: Vec<Vec<Pixel>> = Vec::new();
    let mut row: Vec<Pixel> = Vec::new();
    let mut prev_y: u32 = 0;
    let mut i: usize = 0;
    while i < pixels.len()
        invariant
            i <= pixels.len(),
            prev_y == row_before(pixels@, i as int),
            rows@.map_values(|r: Vec<Pixel>| r@).push(row@) == rows_of(pixels@.take(i as int)),
        decreases pixels.len() - i,
    {
        let (x, y, hsl) = pixels[i];
        proof {
            assert(pixels@.take(i + 1).drop_last() == pixels@.take(i as int));
            assert(row_before(pixels@.take(i + 1), i as int) == row_before(pixels@, i as int));
        }
        let ghost before = rows@.map_values(|r: Vec<Pixel>| r@).push(row@);
        if y != prev_y {
            rows.push(row);
            prev_y = y;
            row = Vec::new();
            assert(rows@.map_values(|r: Vec<Pixel>| r@) == before);
        } else {
            assert(rows@.map_values(|r: Vec<Pixel>| r@) == before.drop_last());
        }
        row.push(Pixel::new(hsl, MatrixPoint(x as usize, y as usize)));
        i += 1;
    }
    assert(pixels@.take(i as int) == pixels@);
    let ghost gathered = rows@.map_values(|r: Vec<Pixel>| r@).push(row@);
    rows.push(row);
    let program = Matrix::new(rows);
    assert(program@ == gathered);
    program
}

/// Whether `pixels` are the pixels of an image of `width` by `height`, row
/// by row and each row from the left, each with its own column and row.
pub open spec fn in_raster_order<T>(pixels: Seq<(u32, u32, T)>, width: nat, height: nat) -> bool {
    &&& pixels.len() == width * height
    &&& forall|k: int|
        0 <= k < pixels.len() ==> (#[trigger] pixels[k]).0 == k % (width as int) && pixels[k].1 == k
            / (width as int)
}

/// The rows gathered from the first `n` pixels of an image in raster order:
/// full rows, then the row that the last pixel stands in, each cell that of
/// the pixel at its place.
proof fn lemma_rows_of_prefix(pixels: Seq<(u32, u32, Hsl)>, width: nat, n: nat)
    requires
        width >= 1,
        1 <= n <= pixels.len(),
        forall|k: int|
            0 <= k < n ==> (#[trigger] pixels[k]).0 == k % (width as int) && pixels[k].1 == k / (
            width as int),
    ensures
        ({
            let rows = rows_of(pixels.take(n as int));
            let q = (n - 1) / (width as int);
            let r = (n - 1) % (width as int);
            &&& rows.len() == q + 1
            &&& rows[q].len() == r + 1
            &&& forall|y: int| 0 <= y < q ==> (#[trigger] rows[y]).len() == width
            &&& forall|y: int, x: int|
                0 <= y <= q && 0 <= x < rows[y].len() ==> #[trigger] rows[y][x] == cell_of(
                    pixels[y * width + x],
                )
        }),
    decreases n,
{
    let w = width as int;
    let this = pixels.take(n as int);
    let rows = rows_of(this);
    let q = (n - 1) / w;
    let r = (n - 1) % w;
    lemma_fundamental_div_mod(n - 1, w);
    assert(this.drop_last() == pixels.take(n - 1));
    assert(this.last() == pixels[n - 1]);
    if n == 1 {
        assert(pixels.take(0).len() == 0);
        assert(rows_of(pixels.take(0)) == seq![Seq::<Pixel>::empty()]);
        assert(q == 0 && r == 0);
        assert(rows == seq![seq![cell_of(pixels[0])]]);
        assert forall|y: int, x: int| 0 <= y <= q && 0 <= x < rows[y].len() implies #[trigger] rows[y][x]
            == cell_of(pixels[y * width + x]) by {
            assert(y * width + x == 0) by (nonlinear_arith)
                requires
                    y == 0,
                    x == 0,
            ;
        }
    } else {
        lemma_rows_of_prefix(pixels, width, (n - 1) as nat);
        let before = rows_of(pixels.take(n - 1));
        let q0 = (n - 2) / w;
        let r0 = (n - 2) % w;
        lemma_fundamental_div_mod(n - 2, w);
        assert(row_before(this, n - 1) == pixels[n - 2].1);
        let cell = cell_of(pixels[n - 1]);
        if r0 + 1 < w {
            assert(n - 1 == q0 * w + (r0 + 1)) by (nonlinear_arith)
                requires
                    n - 2 == w * q0 + r0,
            ;
            lemma_fundamental_div_mod_converse(n - 1, w, q0, r0 + 1);
            assert(q == q0 && r == r0 + 1);
            assert(rows == before.drop_last().push(before.last().push(cell)));
            assert forall|y: int, x: int| 0 <= y <= q && 0 <= x < rows[y].len() implies #[trigger] rows[y][x]
                == cell_of(pixels[y * width + x]) by {
                if y == q && x == r {
                    assert(q * w + r == n - 1) by (nonlinear_arith)
                        requires
                            n - 1 == w * q + r,
                    ;
                } else {
                    assert(rows[y][x] == before[y][x]);
                }
            }
        } else {
            assert(n - 1 == (q0 + 1) * w + 0) by (nonlinear_arith)
                requires
                    n - 2 == w * q0 + r0,
                    r0 + 1 == w,
            ;
            lemma_fundamental_div_mod_converse(n - 1, w, q0 + 1, 0);
            assert(q == q0 + 1 && r == 0);
            assert(rows == before.push(seq![cell]));
            assert forall|y: int, x: int| 0 <= y <= q && 0 <= x < rows[y].len() implies #[trigger] rows[y][x]
                == cell_of(pixels[y * width + x]) by {
                if y == q {
                    assert(q * w + 0 == n - 1) by (nonlinear_arith)
                        requires
                            n - 1 == w * q + r,
                            r == 0,
                    ;
                } else {
                    assert(rows[y][x] == before[y][x]);
                }
            }
        }
    }
}

/// The pixels of an image in raster order are gathered into a grid of the
/// width and height of the image, and the cell in column `x` of row `y` has
/// the colour of the pixel there and knows its place.
pub proof fn lemma_rows_of_raster(pixels: Seq<(u32, u32, Hsl)>, width: nat, height: nat)
    requires
        width >= 1,
        height >= 1,
        in_raster_order(pixels, width, height),
    ensures
        has_shape(rows_of(pixels), width, height),
        forall|x: int, y: int|
            0 <= x < width && 0 <= y < height ==> #[trigger] rows_of(pixels)[y][x] == (Pixel {
                hsl: pixels[y * width + x].2,
                point: MatrixPoint(x as usize, y as usize),
            }),
{
    let w = width as int;
    let n = pixels.len();
    assert(n == width * height);
    assert(n >= 1) by (nonlinear_arith)
        requires
            n == width * height,
            width >= 1,
            height >= 1,
    ;
    lemma_rows_of_prefix(pixels, width, n);
    assert(pixels.take(n as int) == pixels);
    // The last pixel stands at the end of the last row.
    assert(n - 1 == (height - 1) * w + (w - 1)) by (nonlinear_arith)
        requires
            n == width * height,
            w == width,
    ;
    lemma_fundamental_div_mod_converse(n - 1, w, height - 1, w - 1);
    let rows = rows_of(pixels);
    assert forall|x: int, y: int| 0 <= x < width && 0 <= y < height implies #[trigger] rows[y][x]
        == (Pixel { hsl: pixels[y * width + x].2, point: MatrixPoint(x as usize, y as usize) }) by {
        let k = y * width + x;
        assert(0 <= k < n) by (nonlinear_arith)
            requires
                k == y * width + x,
                0 <= x < width,
                0 <= y < height,
                n == width * height,
        ;
        lemma_fundamental_div_mod_converse(k, w, y, x);
        assert(x < rows[y].len());
        assert(rows[y][x] == cell_of(pixels[k]));
    }
}

/// `a / b` rounded up.
pub open spec fn ceil_div(a: int, b: int) -> int {
    (a + b - 1) / b
}

/// Rounding a quotient up adds one to it unless the division is exact.
proof fn lemma_ceil_div(a: int, b: int)
    requires
        a >= 0,
        b >= 1,
    ensures
        ceil_div(a, b) == a / b + if a % b == 0 {
            0int
        } else {
            1int
        },
{
    let q = a / b;
    let r = a % b;
    lemma_fundamental_div_mod(a, b);
    lemma_mod_bound(a, b);
    if r == 0 {
        assert(a + b - 1 == q * b + (b - 1)) by (nonlinear_arith)
            requires
                a == b * q + r,
                r == 0,
        ;
        lemma_fundamental_div_mod_converse(a + b - 1, b, q, b - 1);
    } else {
        assert(a + b - 1 == (q + 1) * b + (r - 1)) by (nonlinear_arith)
            requires
                a == b * q + r,
        ;
        lemma_fundamental_div_mod_converse(a + b - 1, b, q + 1, r - 1);
    }
}

/// The place after place `n` in an image `w` wide: the next column, or the
/// first column of the next row.
proof fn lemma_next_place(n: int, w: int)
    requires
        n >= 0,
        w >= 1,
    ensures
        0 <= n % w < w,
        n % w + 1 < w ==> (n + 1) % w == n % w + 1 && (n + 1) / w == n / w,
        n % w + 1 == w ==> (n + 1) % w == 0 && (n + 1) / w == n / w + 1,
{
    let q = n / w;
    let r = n % w;
    lemma_fundamental_div_mod(n, w);
    lemma_mod_bound(n, w);
    if r + 1 < w {
        assert(n + 1 == q * w + (r + 1)) by (nonlinear_arith)
            requires
                n == w * q + r,
        ;
        lemma_fundamental_div_mod_converse(n + 1, w, q, r + 1);
    } else {
        assert(n + 1 == (q + 1) * w + 0) by (nonlinear_arith)
            requires
                n == w * q + r,
                r + 1 == w,
        ;
        lemma_fundamental_div_mod_converse(n + 1, w, q + 1, 0);
    }
}

/// How rounding up goes from `a` to `a + 1`.
proof fn lemma_ceil_div_next(a: int, b: int)
    requires
        a >= 0,
        b >= 1,
    ensures
        a % b == 0 ==> ceil_div(a, b) == a / b && ceil_div(a + 1, b) == a / b + 1,
        a % b != 0 ==> ceil_div(a + 1, b) == ceil_div(a, b),
{
    lemma_ceil_div(a, b);
    lemma_ceil_div(a + 1, b);
    lemma_next_place(a, b);
}

/// The number of pixels that lead a block among the first `n` of an image
/// `width` wide whose blocks are `size` wide and high.
pub open spec fn leaders(n: int, width: int, size: int) -> int {
    let x = n % width;
    let y = n / width;
    ceil_div(y, size) * (width / size) + if y % size == 0 {
        ceil_div(x, size)
    } else {
        0
    }
}

/// Whether the first cells sampled from `image` stand in raster order, each
/// with the colour of the pixel that leads its block.
pub open spec fn sampled_in_order(
    image: Seq<(u32, u32, [u8; 4])>,
    cells: Seq<(u32, u32, Hsl)>,
    width: int,
    size: int,
) -> bool {
    forall|m: int|
        0 <= m < cells.len() ==> {
            let bx = m % (width / size);
            let by = m / (width / size);
            &&& (#[trigger] cells[m]).0 == bx
            &&& cells[m].1 == by
            &&& 0 <= (by * size) * width + bx * size < image.len()
            &&& cells[m].2 == block_cell(image[(by * size) * width + bx * size], size as u32).2
        }
}

/// What sampling the first `n` pixels of an image in raster order gives.
proof fn lemma_sampled_prefix(image: Seq<(u32, u32, [u8; 4])>, width: nat, size: u32, n: nat)
    requires
        size >= 1,
        width >= 1,
        width % (size as nat) == 0,
        n <= image.len(),
        forall|k: int|
            0 <= k < image.len() ==> (#[trigger] image[k]).0 == k % (width as int) && image[k].1
                == k / (width as int),
    ensures
        sampled(image.take(n as int), size).len() == leaders(n as int, width as int, size as int),
        sampled_in_order(
            image,
            sampled(image.take(n as int), size),
            width as int,
            size as int,
        ),
    decreases n,
{
    let w = width as int;
    let k = size as int;
    let blocks = w / k;
    lemma_fundamental_div_mod(w, k);
    assert(blocks >= 1) by {
        lemma_div_pos_is_pos(w, k);
        if blocks == 0 {
            assert(k * blocks == 0) by (nonlinear_arith)
                requires
                    blocks == 0,
            ;
        }
    }
    assert(w == blocks * k) by (nonlinear_arith)
        requires
            w == k * blocks + w % k,
            w % k == 0,
    ;
    if n == 0 {
        assert(image.take(0).len() == 0);
        lemma_ceil_div(0, k);
        assert(0int % w == 0 && 0int / w == 0) by {
            lemma_fundamental_div_mod_converse(0, w, 0, 0);
        }
        assert(0int % k == 0 && 0int / k == 0) by {
            lemma_fundamental_div_mod_converse(0, k, 0, 0);
        }
        assert(0 * blocks == 0) by (nonlinear_arith);
    } else {
        let i = n - 1;
        lemma_sampled_prefix(image, width, size, i as nat);
        let before = sampled(image.take(i), size);
        let this = sampled(image.take(n as int), size);
        assert(image.take(n as int).drop_last() == image.take(i));
        assert(image.take(n as int).last() == image[i]);
        let x = i % w;
        let y = i / w;
        lemma_next_place(i, w);
        lemma_fundamental_div_mod(i, w);
        lemma_ceil_div_next(x, k);
        lemma_ceil_div_next(y, k);
        lemma_ceil_div(0, k);
        assert(0int % k == 0 && 0int / k == 0) by {
            lemma_fundamental_div_mod_converse(0, k, 0, 0);
        }
        lemma_fundamental_div_mod(x, k);
        lemma_fundamental_div_mod(y, k);
        lemma_mod_bound(x, k);
        lemma_mod_bound(y, k);
        let gx = x / k;
        let gy = y / k;
        // The column of a block lies below the number of blocks in a row.
        assert(0 <= gx < blocks) by {
            lemma_div_pos_is_pos(x, k);
            if gx >= blocks {
                assert(k * gx >= k * blocks) by (nonlinear_arith)
                    requires
                        gx >= blocks,
                        k >= 1,
                ;
            }
        }
        assert(0 <= gy) by {
            lemma_div_pos_is_pos(y, k);
        }
        if x + 1 == w {
            // The last pixel of a row: rounded up, its column gives the
            // number of blocks in the row.
            lemma_ceil_div(x, k);
            assert(gx == blocks - 1) by (nonlinear_arith)
                requires
                    x == k * gx + x % k,
                    0 <= x % k < k,
                    x + 1 == blocks * k,
                    0 <= gx < blocks,
            ;
            if x % k == 0 {
                assert(k == 1) by (nonlinear_arith)
                    requires
                        x == k * gx,
                        x + 1 == blocks * k,
                        k >= 1,
                        gx == blocks - 1,
                ;
            }
        }
        if y % k == 0 && x % k == 0 {
            let m = before.len() as int;
            assert(leads_block(image[i], size));
            assert(this == before.push(block_cell(image[i], size)));
            assert(m == gy * blocks + gx);
            lemma_fundamental_div_mod_converse(m, blocks, gy, gx);
            assert((gy * k) * w + gx * k == i) by (nonlinear_arith)
                requires
                    i == w * y + x,
                    y == k * gy,
                    x == k * gx,
            ;
            assert(this.len() == leaders(n as int, w, k)) by {
                if x + 1 < w {
                } else {
                    assert((gy + 1) * blocks == gy * blocks + blocks) by (nonlinear_arith);
                }
            }
            assert forall|j: int| 0 <= j < this.len() implies {
                let bx = j % (w / k);
                let by = j / (w / k);
                &&& (#[trigger] this[j]).0 == bx
                &&& this[j].1 == by
                &&& 0 <= (by * k) * w + bx * k < image.len()
                &&& this[j].2 == block_cell(image[(by * k) * w + bx * k], k as u32).2
            } by {
                if j < m {
                    assert(this[j] == before[j]);
                }
            }
        } else {
            assert(!leads_block(image[i], size));
            assert(this == before);
            assert(this.len() == leaders(n as int, w, k)) by {
                if x + 1 < w {
                } else {
                    if y % k == 0 {
                        assert((gy + 1) * blocks == gy * blocks + blocks) by (nonlinear_arith);
                    }
                }
            }
        }
    }
}

/// Sampling an image in raster order whose width and height are multiples of
/// the block size gives the cells of the blocks in raster order, each with
/// the colour of the top-left pixel of its block.
pub proof fn lemma_sampled_raster(
    image: Seq<(u32, u32, [u8; 4])>,
    width: nat,
    height: nat,
    size: u32,
)
    requires
        size >= 1,
        width >= 1,
        width % (size as nat) == 0,
        height % (size as nat) == 0,
        in_raster_order(image, width, height),
    ensures
        in_raster_order(sampled(image, size), width / (size as nat), height / (size as nat)),
        forall|x: int, y: int|
            0 <= x < width / (size as nat) && 0 <= y < height / (size as nat) ==> (
            #[trigger] sampled(image, size)[y * (width / (size as nat)) + x]).2 == hsl_of(
                image[(y * size) * width + x * size].2[0],
                image[(y * size) * width + x * size].2[1],
                image[(y * size) * width + x * size].2[2],
            ),
{
    let w = width as int;
    let h = height as int;
    let k = size as int;
    let blocks = w / k;
    let n = image.len();
    let cells = sampled(image, size);
    lemma_sampled_prefix(image, width, size, n);
    assert(image.take(n as int) == image);
    // The place after the last pixel is the first column of row `height`.
    assert(n == h * w + 0) by (nonlinear_arith)
        requires
            n == width * height,
            w == width,
            h == height,
    ;
    lemma_fundamental_div_mod_converse(n as int, w, h, 0);
    lemma_ceil_div(h, k);
    lemma_ceil_div(0, k);
    assert(0int % k == 0 && 0int / k == 0) by {
        lemma_fundamental_div_mod_converse(0, k, 0, 0);
    }
    assert(cells.len() == (h / k) * blocks);
    let across = width / (size as nat);
    let down = height / (size as nat);
    assert(across == blocks && down == h / k);
    assert((h / k) * blocks == across * down) by (nonlinear_arith)
        requires
            blocks == across,
            h / k == down,
    ;
    assert forall|x: int, y: int|
        0 <= x < width / (size as nat) && 0 <= y < height / (size as nat) implies (
    #[trigger] cells[y * (width / (size as nat)) + x]).2 == hsl_of(
        image[(y * size) * width + x * size].2[0],
        image[(y * size) * width + x * size].2[1],
        image[(y * size) * width + x * size].2[2],
    ) by {
        let m = y * blocks + x;
        assert(0 <= m < cells.len()) by (nonlinear_arith)
            requires
                m == y * blocks + x,
                0 <= x < blocks,
                0 <= y < h / k,
                cells.len() == (h / k) * blocks,
        ;
        lemma_fundamental_div_mod_converse(m, blocks, y, x);
        assert(cells[m].1 == y);
    }
}

/// The program of an image in raster order whose width and height are
/// multiples of the block size: a grid with one cell for each block, as
/// many columns and rows as the image has blocks across and down, the cell
/// in column `x` of row `y` with the colour of the top-left pixel of its
/// block and knowing its place.
pub proof fn lemma_program_of_raster(
    image: Seq<(u32, u32, [u8; 4])>,
    width: u32,
    height: u32,
    size: u32,
)
    requires
        size >= 1,
        width >= 1,
        height >= 1,
        width % size == 0,
        height % size == 0,
        in_raster_order(image, width as nat, height as nat),
    ensures
        sample_spec(width, height, image, size) == Ok::<Seq<(u32, u32, Hsl)>, ParseError>(
            sampled(image, size),
        ),
        has_shape(rows_of(sampled(image, size)), (width / size) as nat, (height / size) as nat),
        well_formed(rows_of(sampled(image, size))),
        forall|x: int, y: int|
            0 <= x < width / size && 0 <= y < height / size ==> #[trigger] rows_of(
                sampled(image, size),
            )[y][x] == (Pixel {
                hsl: hsl_of(
                    image[(y * size) * width + x * size].2[0],
                    image[(y * size) * width + x * size].2[1],
                    image[(y * size) * width + x * size].2[2],
                ),
                point: MatrixPoint(x as usize, y as usize),
            }),
{
    let across = (width as nat) / (size as nat);
    let down = (height as nat) / (size as nat);
    let cells = sampled(image, size);
    lemma_fundamental_div_mod(width as int, size as int);
    lemma_fundamental_div_mod(height as int, size as int);
    assert(across >= 1 && down >= 1) by (nonlinear_arith)
        requires
            width == size * across,
            height == size * down,
            width >= 1,
            height >= 1,
            size >= 1,
    ;
    lemma_sampled_raster(image, width as nat, height as nat, size);
    assert(cells.len() >= 1) by (nonlinear_arith)
        requires
            cells.len() == across * down,
            across >= 1,
            down >= 1,
    ;
    lemma_rows_of_raster(cells, across, down);
    assert forall|x: int, y: int| 0 <= x < width / size && 0 <= y < height / size implies #[trigger] rows_of(
        cells,
    )[y][x] == (Pixel {
        hsl: hsl_of(
            image[(y * size) * width + x * size].2[0],
            image[(y * size) * width + x * size].2[1],
            image[(y * size) * width + x * size].2[2],
        ),
        point: MatrixPoint(x as usize, y as usize),
    }) by {
        assert(cells[y * across + x].2 == hsl_of(
            image[(y * size) * width + x * size].2[0],
            image[(y * size) * width + x * size].2[1],
            image[(y * size) * width + x * size].2[2],
        ));
    }
    let grid = rows_of(cells);
    assert forall|point: MatrixPoint|
        match #[trigger] grid_cell(grid, point) {
            Some(cell) => cell.point == point && cell.spec_value() < 360,
            None => true,
        } by {
        if grid_cell(grid, point).is_some() {
            let x = point.0 as int;
            let y = point.1 as int;
            assert(grid[y].len() == across);
            assert(grid[y][x].point == MatrixPoint(x as usize, y as usize));
        }
    }
}

/// The program of a decoded image whose width and height are multiples of
/// the block size: sampling succeeds, and gives a grid with one cell for
/// each block, the cell in column `x` of row `y` with the colour of the
/// top-left pixel of its block, knowing its place, its hue below 360.
pub proof fn lemma_program_of_picture(width: u32, height: u32, samples: Seq<[u8; 4]>, size: u32)
    requires
        size >= 1,
        width >= 1,
        height >= 1,
        width % size == 0,
        height % size == 0,
    ensures
        sample_spec(width, height, listed(width, height, samples), size) == Ok::<
            Seq<(u32, u32, Hsl)>,
            ParseError,
        >(sampled(listed(width, height, samples), size)),
        has_shape(
            rows_of(sampled(listed(width, height, samples), size)),
            (width / size) as nat,
            (height / size) as nat,
        ),
        well_formed(rows_of(sampled(listed(width, height, samples), size))),
        forall|x: int, y: int|
            0 <= x < width / size && 0 <= y < height / size ==> #[trigger] rows_of(
                sampled(listed(width, height, samples), size),
            )[y][x] == (Pixel {
                hsl: hsl_of(
                    samples[(y * size) * width + x * size][0],
                    samples[(y * size) * width + x * size][1],
                    samples[(y * size) * width + x * size][2],
                ),
                point: MatrixPoint(x as usize, y as usize),
            }),
{
    let image = listed(width, height, samples);
    lemma_listed_in_raster_order(width, height, samples);
    lemma_program_of_raster(image, width, height, size);
    let grid = rows_of(sampled(image, size));
    assert forall|x: int, y: int| 0 <= x < width / size && 0 <= y < height / size implies #[trigger] grid[y][x]
        == (Pixel {
        hsl: hsl_of(
            samples[(y * size) * width + x * size][0],
            samples[(y * size) * width + x * size][1],
            samples[(y * size) * width + x * size][2],
        ),
        point: MatrixPoint(x as usize, y as usize),
    }) by {
        let k = (y * size) * width + x * size;
        lemma_fundamental_div_mod(width as int, size as int);
        lemma_fundamental_div_mod(height as int, size as int);
        assert(0 <= k < width * height) by (nonlinear_arith)
            requires
                k == (y * size) * width + x * size,
                0 <= x < width / size,
                0 <= y < height / size,
                width == size * (width / size),
                height == size * (height / size),
                size >= 1,
        ;
        assert(image[k].2 == samples[k]);
    }
}

} // verus!
