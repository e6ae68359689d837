//! Integer side of normal-map synthesis from an RGBA8 height-map: gathering
//! the four neighbour heights of every pixel, and laying encoded normals out
//! as an RGBA8 image of the same size.
use vstd::prelude::*;
use vstd::arithmetic::div_mod::{lemma_fundamental_div_mod_converse, lemma_fundamental_div_mod};
use crate::sampler::{dims_ok, height_byte, sample_height};

verus! {

/// Elevation bytes of a pixel's four cardinal neighbours. North is the next
/// row (`y + 1`), south the previous one (`y - 1`), east the next column,
/// west the previous one.
#[derive(Clone, Copy, Debug, PartialEq, Eq, Structural)]
pub struct Neighbors {
    pub north: u8,
    pub south: u8,
    pub east: u8,
    pub west: u8,
}

/// Neighbour heights of pixel `(x, y)`, read with the sampler's column wrap
/// and row clamp.
pub open spec fn neighbors_of(data: Seq<u8>, width: int, height: int, x: int, y: int) -> Neighbors {
    Neighbors {
        north: height_byte(data, width, height, x, y + 1),
        south: height_byte(data, width, height, x, y - 1),
        east: height_byte(data, width, height, x + 1, y),
        west: height_byte(data, width, height, x - 1, y),
    }
}

/// Neighbour heights of every pixel, row-major with `x` fastest.
pub open spec fn is_neighbor_field(data: Seq<u8>, width: int, height: int, f: Seq<Neighbors>) -> bool {
    &&& f.len() == width * height
    &&& forall|k: int| 0 <= k < f.len() ==> #[trigger] f[k] == neighbors_of(data, width, height, k % width, k / width)
}

/// The RGBA8 image holding the RGB triples `rgb` (one per pixel, row-major)
/// with full alpha.
pub open spec fn is_rgba_of(rgb: Seq<u8>, out: Seq<u8>) -> bool {
    &&& out.len() == rgb.len() / 3 * 4
    &&& forall|k: int|
        0 <= k < out.len() ==> #[trigger] out[k] == if k % 4 == 3 {
            255u8
        } else {
            rgb[3 * (k / 4) + k % 4]
        }
}

proof fn lemma_div_mod_of(k: int, d: int, q: int, r: int)
    requires
        0 < d,
        0 <= r < d,
        k == q * d + r,
    ensures
        k / d == q,
        k % d == r,
{
    lemma_fundamental_div_mod_converse(k, d, q, r);
}

/// Elevation bytes of the four cardinal neighbours of pixel `(x, y)`.
pub fn neighbor_heights(height_data: &[u8], width: usize, height: usize, x: usize, y: usize) -> (r: Neighbors)
    requires
        dims_ok(width as int, height as int),
        x < width,
        y < height,
    ensures
        r == neighbors_of(height_data@, width as int, height as int, x as int, y as int),
{
    proof {
        assert(width * height * 4 >= width * 4 && width * height * 4 >= height * 4) by (nonlinear_arith)
            requires 0 < width, 0 < height;
        assert(usize::MAX <= u64::MAX);
    }
    let xi = x as i64;
    let yi = y as i64;
    Neighbors {
        north: sample_height(height_data, width, height, xi, yi + 1),
        south: sample_height(height_data, width, height, xi, yi - 1),
        east: sample_height(height_data, width, height, xi + 1, yi),
        west: sample_height(height_data, width, height, xi - 1, yi),
    }
}

/// Neighbour heights of every pixel of a `width` x `height` height-map,
/// row-major with `x` fastest.
pub fn neighbor_field(height_data: &[u8], width: usize, height: usize) -> (r: Vec<Neighbors>)
    requires
        dims_ok(width as int, height as int),
    ensures
        is_neighbor_field(height_data@, width as int, height as int, r@),
{
    let mut f: Vec<Neighbors> = Vec::new();
    let mut y: usize = 0;
    while y < height
        invariant
            dims_ok(width as int, height as int),
            y <= height,
            f@.len() == y * width,
            forall|k: int| 0 <= k < f@.len() ==> #[trigger] f@[k] == neighbors_of(
                height_data@,
                width as int,
                height as int,
                k % width as int,
                k / width as int,
            ),
        decreases height - y,
    {
        let mut x: usize = 0;
        while x < width
            invariant
                dims_ok(width as int, height as int),
                y < height,
                x <= width,
                f@.len() == y * width + x,
                forall|k: int| 0 <= k < f@.len() ==> #[trigger] f@[k] == neighbors_of(
                    height_data@,
                    width as int,
                    height as int,
                    k % width as int,
                    k / width as int,
                ),
            decreases width - x,
        {
            proof {
                lemma_div_mod_of(y * width + x, width as int, y as int, x as int);
            }
            let n = neighbor_heights(height_data, width, height, x, y);
            f.push(n);
            x = x + 1;
        }
        proof {
            assert(y * width + width == (y + 1) * width) by (nonlinear_arith);
        }
        y = y + 1;
    }
    proof {
        assert(height * width == width * height) by (nonlinear_arith);
    }
    f
}

/// The all-zero RGBA8 image of the given size: what a height-map without
/// pixel data yields.
pub fn blank_normal_map(width: usize, height: usize) -> (r: Vec<u8>)
    requires
        width * height * 4 <= usize::MAX,
    ensures
        r@.len() == width * height * 4,
        forall|k: int| 0 <= k < r@.len() ==> r@[k] == 0u8,
{
    proof {
        assert(0 <= width * height * 4) by (nonlinear_arith);
    }
    let len = width * height * 4;
    let mut out: Vec<u8> = Vec::new();
    while out.len() < len
        invariant
            len == width * height * 4,
            out@.len() <= len,
            forall|k: int| 0 <= k < out@.len() ==> out@[k] == 0u8,
        decreases len - out@.len(),
    {
        out.push(0);
    }
    out
}

/// Lays out one encoded normal per pixel (`rgb`: three bytes per pixel,
/// row-major) as an RGBA8 image with alpha 255.
pub fn assemble_normal_map(rgb: &Vec<u8>) -> (r: Vec<u8>)
    requires
        rgb@.len() % 3 == 0,
        rgb@.len() / 3 * 4 <= usize::MAX,
    ensures
        is_rgba_of(rgb@, r@),
{
    let pixels = rgb.len() / 3;
    let mut out: Vec<u8> = Vec::new();
    let mut p: usize = 0;
    while p < pixels
        invariant
            pixels == rgb@.len() / 3,
            rgb@.len() % 3 == 0,
            pixels * 4 <= usize::MAX,
            p <= pixels,
            out@.len() == 4 * p,
            forall|k: int| 0 <= k < out@.len() ==> #[trigger] out@[k] == if k % 4 == 3 {
                255u8
            } else {
                rgb@[3 * (k / 4) + k % 4]
            },
        decreases pixels - p,
    {
        proof {
            lemma_fundamental_div_mod(rgb@.len() as int, 3);
        }
        let ghost start = out@.len();
        out.push(rgb[3 * p]);
        out.push(rgb[3 * p + 1]);
        out.push(rgb[3 * p + 2]);
        out.push(255);
        proof {
            assert forall|k: int| start <= k < out@.len() implies #[trigger] out@[k] == if k % 4 == 3 {
                255u8
            } else {
                rgb@[3 * (k / 4) + k % 4]
            } by {
                lemma_div_mod_of(k, 4, p as int, k - start);
            }
        }
        p = p + 1;
    }
    out
}

/// On a flat height-map, one whose every texel has elevation `c`, all four
/// neighbour heights of every pixel are `c`: the finite differences that the
/// normal is built from see no slope.
pub proof fn lemma_flat_map_has_level_neighbors(data: Seq<u8>, width: int, height: int, c: u8, x: int, y: int)
    requires
        0 < width,
        0 < height,
        data.len() == width * height * 4,
        forall|p: int| 0 <= p < width * height ==> #[trigger] data[4 * p] == c,
    ensures
        neighbors_of(data, width, height, x, y) == (Neighbors { north: c, south: c, east: c, west: c }),
{
    lemma_flat_map_reads_level(data, width, height, c, x, y + 1);
    lemma_flat_map_reads_level(data, width, height, c, x, y - 1);
    lemma_flat_map_reads_level(data, width, height, c, x + 1, y);
    lemma_flat_map_reads_level(data, width, height, c, x - 1, y);
}

proof fn lemma_flat_map_reads_level(data: Seq<u8>, width: int, height: int, c: u8, x: int, y: int)
    requires
        0 < width,
        0 < height,
        data.len() == width * height * 4,
        forall|p: int| 0 <= p < width * height ==> #[trigger] data[4 * p] == c,
    ensures
        height_byte(data, width, height, x, y) == c,
{
    let cx = crate::sampler::wrap_col(x, width);
    let cy = crate::sampler::clamp_row(y, height);
    vstd::arithmetic::div_mod::lemma_mod_bound(x, width);
    let p = cy * width + cx;
    assert(0 <= p < width * height) by (nonlinear_arith)
        requires
            0 <= cx < width,
            0 <= cy < height,
            p == cy * width + cx,
    ;
    assert(data[4 * p] == c);
    assert(crate::sampler::texel_offset(width, height, x, y) == 4 * p);
}

} // verus!
