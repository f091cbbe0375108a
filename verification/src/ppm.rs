//! The plain-text portable pixmap form of a finished image.
//!
//! The text is ASCII: the line `P3`, a line with the width and the height, the
//! line `255`, then one line for each pixel with its three channels, the rows
//! from top to bottom and each row from left to right.

use crate::image::Image;
use vstd::prelude::*;

verus! {

/// A pixel ready for output: three channels of eight bits.
#[derive(Clone, Copy, Debug, PartialEq, Eq, Structural)]
pub struct Rgb {
    pub r: u8,
    pub g: u8,
    pub b: u8,
}

impl Default for Rgb {
    /// A black pixel.
    fn default() -> (pixel: Rgb)
        ensures
            pixel == (Rgb { r: 0, g: 0, b: 0 }),
    {
        Rgb { r: 0, g: 0, b: 0 }
    }
}

/// The channel value for an intensity that was already scaled to the range
/// of a byte and rounded to a whole number: the number itself where it lies
/// in `0..=255`, else the nearer end of that range.
pub open spec fn clamp_to_byte(rounded: int) -> int {
    if rounded < 0 {
        0
    } else if rounded > 255 {
        255
    } else {
        rounded
    }
}

/// Clamps a rounded intensity to a channel value.
pub fn quantize(rounded: i64) -> (channel: u8)
    ensures
        channel == clamp_to_byte(rounded as int),
{
    if rounded < 0 {
        0
    } else if rounded > 255 {
        255
    } else {
        rounded as u8
    }
}

/// The ASCII digit for `d`, which is below ten.
pub open spec fn digit(d: nat) -> u8 {
    (48 + d) as u8
}

/// The decimal numeral of `n`, without leading zeros.
pub open spec fn decimal(n: nat) -> Seq<u8>
    decreases n,
{
    if n < 10 {
        seq![digit(n)]
    } else {
        decimal(n / 10).push(digit(n % 10))
    }
}

/// The header for an image of the given size.
pub open spec fn header_text(width: nat, height: nat) -> Seq<u8> {
    seq![80u8, 51u8, 10u8] + decimal(width) + seq![32u8] + decimal(height) + seq![10u8] + seq![
        50u8,
        53u8,
        53u8,
        10u8,
    ]
}

/// The line for one pixel: red, green and blue, separated by one space.
pub open spec fn pixel_text(pixel: Rgb) -> Seq<u8> {
    decimal(pixel.r as nat) + seq![32u8] + decimal(pixel.g as nat) + seq![32u8] + decimal(
        pixel.b as nat,
    ) + seq![10u8]
}

/// The lines for the pixels of one row, from left to right.
pub open spec fn row_text(row: Seq<Rgb>) -> Seq<u8>
    decreases row.len(),
{
    if row.len() == 0 {
        Seq::empty()
    } else {
        row_text(row.drop_last()) + pixel_text(row.last())
    }
}

/// The lines for all rows, from top to bottom.
pub open spec fn rows_text(rows: Seq<Seq<Rgb>>) -> Seq<u8>
    decreases rows.len(),
{
    if rows.len() == 0 {
        Seq::empty()
    } else {
        rows_text(rows.drop_last()) + row_text(rows.last())
    }
}

/// The whole text of an image whose rows are `rows`, each `width` wide.
pub open spec fn image_text(width: nat, rows: Seq<Seq<Rgb>>) -> Seq<u8> {
    header_text(width, rows.len()) + rows_text(rows)
}

/// Appends the decimal numeral of `n`.
fn push_decimal(out: &mut Vec<u8>, n: usize)
    ensures
        final(out)@ == old(out)@ + decimal(n as nat),
    decreases n,
{
    if n >= 10 {
        push_decimal(out, n / 10);
    }
    let d: u8 = (n % 10) as u8;
    out.push(48 + d);
    assert(out@ =~= old(out)@ + decimal(n as nat));
}

/// Appends the line for one pixel.
fn push_pixel(out: &mut Vec<u8>, pixel: Rgb)
    ensures
        final(out)@ == old(out)@ + pixel_text(pixel),
{
    push_decimal(out, pixel.r as usize);
    out.push(32);
    push_decimal(out, pixel.g as usize);
    out.push(32);
    push_decimal(out, pixel.b as usize);
    out.push(10);
    assert(out@ =~= old(out)@ + pixel_text(pixel));
}

/// The header of an image of the given size, as bytes.
pub fn header(width: usize, height: usize) -> (out: Vec<u8>)
    ensures
        out@ == header_text(width as nat, height as nat),
{
    let mut out: Vec<u8> = Vec::new();
    out.push(80);
    out.push(51);
    out.push(10);
    push_decimal(&mut out, width);
    out.push(32);
    push_decimal(&mut out, height);
    out.push(10);
    out.push(50);
    out.push(53);
    out.push(53);
    out.push(10);
    assert(out@ =~= header_text(width as nat, height as nat));
    out
}

/// Serializes an image. After each row, `callback` is called with the number
/// of rows written so far.
pub fn write_pgm<F: Fn(usize)>(image: &Image<Rgb>, callback: F) -> (out: Vec<u8>)
    requires
        forall|n: usize| 1 <= n <= image.spec_height() ==> call_requires(callback, (n,)),
    ensures
        out@ == image_text(image.spec_width(), image@),
{
    let width: usize = image.width();
    let height: usize = image.height();
    proof {
        image.lemma_shape();
    }
    let mut out = header(width, height);
    let mut y: usize = 0;
    while y < height
        invariant
            y <= height,
            height == image.spec_height(),
            width == image.spec_width(),
            image@.len() == height,
            forall|r: int| 0 <= r < height ==> (#[trigger] image@[r]).len() == width,
            forall|n: usize| 1 <= n <= height ==> call_requires(callback, (n,)),
            out@ == header_text(width as nat, height as nat) + rows_text(image@.take(y as int)),
        decreases height - y,
    {
        let row = image.index(y);
        let ghost before = out@;
        let mut x: usize = 0;
        while x < width
            invariant
                x <= width,
                row@.len() == width,
                out@ == before + row_text(row@.take(x as int)),
            decreases width - x,
        {
            push_pixel(&mut out, row[x]);
            proof {
                assert(row@.take(x + 1).drop_last() =~= row@.take(x as int));
                assert(out@ =~= before + row_text(row@.take(x + 1)));
            }
            x = x + 1;
        }
        proof {
            assert(row@.take(width as int) =~= row@);
            assert(image@.take(y + 1).drop_last() =~= image@.take(y as int));
            assert(out@ =~= header_text(width as nat, height as nat) + rows_text(
                image@.take(y + 1),
            ));
        }
        y = y + 1;
        callback(y);
    }
    proof {
        assert(image@.take(height as int) =~= image@);
    }
    out
}

} // verus!
