//! Reads the elevation channel of an RGBA8 height-map at a pixel coordinate.
//! Columns wrap (longitude is cyclic); rows clamp (the poles are edges).
use vstd::prelude::*;
use vstd::arithmetic::div_mod::{lemma_fundamental_div_mod_converse, lemma_mod_multiples_vanish};

verus! {

/// Column actually read for column `x` of a map `width` pixels wide.
pub open spec fn wrap_col(x: int, width: int) -> int {
    x % width
}

/// Row actually read for row `y` of a map `height` pixels tall.
pub open spec fn clamp_row(y: int, height: int) -> int {
    if y < 0 {
        0
    } else if y >= height {
        height - 1
    } else {
        y
    }
}

/// Byte offset of the first channel of the texel read for `(x, y)`.
pub open spec fn texel_offset(width: int, height: int, x: int, y: int) -> int {
    (clamp_row(y, height) * width + wrap_col(x, width)) * 4
}

/// Elevation byte read for `(x, y)`: the red channel of the resolved texel,
/// or 0 where the buffer is too short to hold that texel.
pub open spec fn height_byte(data: Seq<u8>, width: int, height: int, x: int, y: int) -> u8 {
    let i = texel_offset(width, height, x, y);
    if i < data.len() {
        data[i]
    } else {
        0
    }
}

/// A map of these dimensions has a byte length that fits in memory.
pub open spec fn dims_ok(width: int, height: int) -> bool {
    0 < width && 0 < height && width * height * 4 <= usize::MAX
}

fn wrapped_col(x: i64, width: usize) -> (r: usize)
    requires
        0 < width,
    ensures
        r as int == wrap_col(x as int, width as int),
        r < width,
{
    let w64: u64 = width as u64;
    if x >= 0 {
        ((x as u64) % w64) as usize
    } else {
        let a: u64 = (-(x + 1)) as u64;
        let m: u64 = a % w64;
        proof {
            let w = width as int;
            let q = (a as int) / w;
            assert(a as int == q * w + m) by {
                vstd::arithmetic::div_mod::lemma_fundamental_div_mod(a as int, w);
            }
            assert(x as int == (-q - 1) * w + (w - 1 - m)) by (nonlinear_arith)
                requires
                    a as int == q * w + m,
                    a as int == -(x as int) - 1,
            ;
            lemma_fundamental_div_mod_converse(x as int, w, -q - 1, w - 1 - m);
        }
        (w64 - 1 - m) as usize
    }
}

fn clamped_row(y: i64, height: usize) -> (r: usize)
    requires
        0 < height,
    ensures
        r as int == clamp_row(y as int, height as int),
{
    if y < 0 {
        0
    } else if y as u64 >= height as u64 {
        height - 1
    } else {
        y as usize
    }
}

/// Elevation byte of the height-map texel at column `x`, row `y`.
/// The column is taken modulo `width`; the row is clamped to `[0, height - 1]`.
pub fn sample_height(height_data: &[u8], width: usize, height: usize, x: i64, y: i64) -> (r: u8)
    requires
        dims_ok(width as int, height as int),
    ensures
        r == height_byte(height_data@, width as int, height as int, x as int, y as int),
{
    let cx = wrapped_col(x, width);
    let cy = clamped_row(y, height);
    proof {
        let (w, h) = (width as int, height as int);
        assert(cy * w + cx < h * w) by (nonlinear_arith)
            requires
                cy < h,
                cx < w,
        ;
        assert(w * h * 4 == h * w * 4) by (nonlinear_arith);
    }
    let pixel_index = (cy * width + cx) * 4;
    if pixel_index < height_data.len() {
        height_data[pixel_index]
    } else {
        0
    }
}

/// Elevation byte that displaces a vertex whose UV rounds to pixel `(x, y)`:
/// the red channel of that texel, or 0 where there is no pixel data or the
/// buffer does not hold the whole texel.
pub open spec fn displacement_byte(data: Option<Seq<u8>>, width: int, x: int, y: int) -> u8 {
    match data {
        Some(d) => {
            let i = (y * width + x) * 4;
            if i + 3 < d.len() {
                d[i]
            } else {
                0
            }
        },
        None => 0,
    }
}

/// Elevation byte at pixel `(x, y)` of an optional displacement map, the
/// pixel being the one nearest to a clamped UV coordinate.
pub fn sample_displacement(data: Option<&[u8]>, width: usize, height: usize, x: usize, y: usize) -> (r: u8)
    requires
        dims_ok(width as int, height as int),
        x < width,
        y < height,
    ensures
        r == displacement_byte(
            match data {
                Some(d) => Some(d@),
                None => None,
            },
            width as int,
            x as int,
            y as int,
        ),
{
    proof {
        let (w, h) = (width as int, height as int);
        assert(y * w + x < h * w) by (nonlinear_arith)
            requires
                y < h,
                x < w,
        ;
        assert(w * h * 4 == h * w * 4) by (nonlinear_arith);
    }
    match data {
        Some(d) => {
            let pixel_index = (y * width + x) * 4;
            if pixel_index + 3 < d.len() {
                d[pixel_index]
            } else {
                0
            }
        },
        None => 0,
    }
}

/// Columns repeat with period `width`: sampling at `x` and at `x + width`
/// reads the same byte.
pub proof fn lemma_sample_wraps_columns(data: Seq<u8>, width: int, height: int, x: int, y: int)
    requires
        0 < width,
        0 < height,
    ensures
        height_byte(data, width, height, x, y) == height_byte(data, width, height, x + width, y),
{
    lemma_mod_multiples_vanish(1, x, width);
}

/// Rows above the top edge read the top row: sampling at row -1 and at row 0
/// reads the same byte.
pub proof fn lemma_sample_clamps_rows(data: Seq<u8>, width: int, height: int, x: int)
    requires
        0 < width,
        0 < height,
    ensures
        height_byte(data, width, height, x, -1) == height_byte(data, width, height, x, 0),
{
}

} // verus!
