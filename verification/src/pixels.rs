//! Pixel-buffer synthesis: a pure function from (width, height, corner
//! radius, alpha byte) to the little-endian ARGB8888 contents of an overlay
//! buffer. Every pixel is black with the configured alpha, except pixels in
//! the square-minus-circle cut region of one of the four corners, which are
//! painted fully opaque black.

use vstd::prelude::*;

verus! {

/// The flat fill: RGB zero, the alpha byte in the top eight bits of the
/// 32-bit ARGB word.
pub open spec fn base_color(alpha: u8) -> u32 {
    (alpha as u32 * 0x1000000) as u32
}

/// The override color for corner cut pixels: fully opaque black.
pub open spec fn cut_color() -> u32 {
    0xFF000000u32
}

/// Whether the pixel at (x, y) lies in the cut region of one of the four
/// corners: inside the radius-by-radius bounding box of that corner but
/// outside the quarter circle around the corner's rounding center. The
/// arithmetic is over unbounded integers, so a radius larger than the
/// surface never wraps around.
pub open spec fn in_corner_cut(width: int, height: int, radius: int, x: int, y: int) -> bool {
    let r = radius;
    ||| (x < r && y < r
        && (r - x) * (r - x) + (r - y) * (r - y) > r * r)
    ||| (x > width - r && y < r
        && (x - (width - r)) * (x - (width - r)) + (r - y) * (r - y) > r * r)
    ||| (x < r && y > height - r
        && (r - x) * (r - x) + (y - (height - r)) * (y - (height - r)) > r * r)
    ||| (x > width - r && y > height - r
        && (x - (width - r)) * (x - (width - r)) + (y - (height - r)) * (y - (height - r)) > r * r)
}

/// The 32-bit color of the pixel at (x, y).
pub open spec fn spec_pixel_color(width: int, height: int, radius: int, alpha: u8, x: int, y: int) -> u32 {
    if in_corner_cut(width, height, radius, x, y) {
        cut_color()
    } else {
        base_color(alpha)
    }
}

/// The four bytes of a 32-bit word in little-endian order.
pub open spec fn le_bytes(c: u32) -> Seq<u8> {
    seq![
        (c % 256) as u8,
        ((c / 256) % 256) as u8,
        ((c / 0x10000) % 256) as u8,
        ((c / 0x1000000) % 256) as u8,
    ]
}

/// The whole buffer: width * height * 4 bytes, four little-endian bytes per
/// pixel, pixels in row-major order.
pub open spec fn buffer_bytes(width: u32, height: u32, radius: u32, alpha: u8) -> Seq<u8> {
    Seq::new(
        ((width as int) * (height as int) * 4) as nat,
        |i: int| le_bytes(
            spec_pixel_color(
                width as int,
                height as int,
                radius as int,
                alpha,
                (i / 4) % (width as int),
                (i / 4) / (width as int),
            ),
        )[i % 4],
    )
}

/// Squares a difference of two 32-bit quantities without overflow.
fn sq(v: i128) -> (s: i128)
    requires
        -0x2_0000_0000 <= v <= 0x2_0000_0000,
    ensures
        s == v * v,
        0 <= s <= 0x4_0000_0000_0000_0000,
{
    proof {
        assert(v * v <= 0x4_0000_0000_0000_0000) by (nonlinear_arith)
            requires -0x2_0000_0000 <= v <= 0x2_0000_0000;
        assert(v * v >= 0) by (nonlinear_arith);
    }
    v * v
}

/// Decides membership in a corner cut region, with signed arithmetic wide
/// enough that no subtraction or square can overflow.
fn corner_cut(width: u32, height: u32, radius: u32, x: u32, y: u32) -> (b: bool)
    ensures
        b == in_corner_cut(width as int, height as int, radius as int, x as int, y as int),
{
    let w: i128 = width as i128;
    let h: i128 = height as i128;
    let r: i128 = radius as i128;
    let xi: i128 = x as i128;
    let yi: i128 = y as i128;
    let rr: i128 = sq(r);
    (xi < r && yi < r && sq(r - xi) + sq(r - yi) > rr)
        || (xi > w - r && yi < r && sq(xi - (w - r)) + sq(r - yi) > rr)
        || (xi < r && yi > h - r && sq(r - xi) + sq(yi - (h - r)) > rr)
        || (xi > w - r && yi > h - r && sq(xi - (w - r)) + sq(yi - (h - r)) > rr)
}

/// The 32-bit color of the pixel at (x, y) of a buffer with the given
/// parameters.
pub fn pixel_color(width: u32, height: u32, radius: u32, alpha: u8, x: u32, y: u32) -> (c: u32)
    ensures
        c == spec_pixel_color(width as int, height as int, radius as int, alpha, x as int, y as int),
{
    if corner_cut(width, height, radius, x, y) {
        0xFF000000u32
    } else {
        (alpha as u32) * 0x1000000
    }
}

proof fn lemma_byte_index(p: int, j: int)
    requires
        0 <= p,
        0 <= j < 4,
    ensures
        (4 * p + j) / 4 == p,
        (4 * p + j) % 4 == j,
{
    assert((4 * p + j) / 4 == p && (4 * p + j) % 4 == j) by (nonlinear_arith)
        requires 0 <= p && 0 <= j < 4;
}

proof fn lemma_pixel_coords(p: int, w: int, h: int)
    requires
        0 < w,
        0 <= p < w * h,
    ensures
        0 <= p % w < w,
        0 <= p / w < h,
{
    assert(0 <= p % w < w && 0 <= p / w < h) by (nonlinear_arith)
        requires 0 < w && 0 <= p < w * h;
}

/// Renders the whole buffer: for every pixel, the four little-endian bytes
/// of its color, pixels in row-major order.
pub fn generate_buffer(width: u32, height: u32, radius: u32, alpha: u8) -> (buf: Vec<u8>)
    requires
        (width as int) * (height as int) * 4 <= usize::MAX as int,
    ensures
        buf@ == buffer_bytes(width, height, radius, alpha),
{
    proof {
        assert((width as int) * (height as int) >= 0 && (width as int) * (height as int) <= (
        width as int) * (height as int) * 4) by (nonlinear_arith);
    }
    let total: usize = (width as usize) * (height as usize);
    let mut buf: Vec<u8> = Vec::new();
    let mut p: usize = 0;
    while p < total
        invariant
            total == (width as int) * (height as int),
            total * 4 <= usize::MAX as int,
            p <= total,
            buf@.len() == 4 * p,
            forall|k: int| 0 <= k < buf@.len()
                ==> buf@[k] == buffer_bytes(width, height, radius, alpha)[k],
        decreases total - p,
    {
        proof {
            assert(width > 0) by (nonlinear_arith)
                requires
                    p < total,
                    total == (width as int) * (height as int),
            ;
            lemma_pixel_coords(p as int, width as int, height as int);
        }
        let x: u32 = (p % (width as usize)) as u32;
        let y: u32 = (p / (width as usize)) as u32;
        let c: u32 = pixel_color(width, height, radius, alpha, x, y);
        buf.push((c % 256) as u8);
        buf.push(((c / 256) % 256) as u8);
        buf.push(((c / 0x10000) % 256) as u8);
        buf.push(((c / 0x1000000) % 256) as u8);
        proof {
            let spec = buffer_bytes(width, height, radius, alpha);
            lemma_byte_index(p as int, 0);
            lemma_byte_index(p as int, 1);
            lemma_byte_index(p as int, 2);
            lemma_byte_index(p as int, 3);
            assert(buf@[4 * p + 0] == spec[4 * p + 0]);
            assert(buf@[4 * p + 1] == spec[4 * p + 1]);
            assert(buf@[4 * p + 2] == spec[4 * p + 2]);
            assert(buf@[4 * p + 3] == spec[4 * p + 3]);
        }
        p = p + 1;
    }
    proof {
        assert(buf@ =~= buffer_bytes(width, height, radius, alpha));
    }
    buf
}

/// The generated buffer always holds exactly width * height * 4 bytes.
pub proof fn lemma_buffer_len(width: u32, height: u32, radius: u32, alpha: u8)
    ensures
        buffer_bytes(width, height, radius, alpha).len() == (width as int) * (height as int) * 4,
{
    assert((width as int) * (height as int) * 4 >= 0) by (nonlinear_arith);
}

/// Buffer synthesis is deterministic and pure: two buffers produced from
/// identical parameters are byte-identical.
pub proof fn lemma_generator_deterministic(
    b1: Seq<u8>,
    b2: Seq<u8>,
    width: u32,
    height: u32,
    radius: u32,
    alpha: u8,
)
    requires
        b1 == buffer_bytes(width, height, radius, alpha),
        b2 == buffer_bytes(width, height, radius, alpha),
    ensures
        b1 == b2,
{
}

/// The little-endian bytes of the flat fill word: zero in blue, green and
/// red, the alpha byte last.
pub proof fn lemma_base_color_bytes(alpha: u8)
    ensures
        le_bytes(base_color(alpha)) =~= seq![0u8, 0u8, 0u8, alpha],
{
    let a32: u32 = alpha as u32;
    let c: u32 = base_color(alpha);
    assert(c == a32 * 0x1000000) by (bit_vector)
        requires c == ((a32 * 0x1000000) as u32) && a32 < 256;
    assert(c % 256 == 0 && (c / 256) % 256 == 0 && (c / 0x10000) % 256 == 0 && (c / 0x1000000)
        % 256 == a32) by (bit_vector)
        requires c == a32 * 0x1000000 && a32 < 256;
}

/// With radius zero no pixel lies in a corner cut region: every byte of the
/// buffer is zero except each pixel's alpha byte, which holds the configured
/// alpha, whatever the width and height.
pub proof fn lemma_radius_zero_flat(width: u32, height: u32, alpha: u8, i: int)
    requires
        0 <= i < buffer_bytes(width, height, 0, alpha).len(),
    ensures
        buffer_bytes(width, height, 0, alpha)[i] == if i % 4 == 3 {
            alpha
        } else {
            0u8
        },
{
    let w = width as int;
    let h = height as int;
    let p = i / 4;
    assert(w * h * 4 > 0);
    assert(0 < w && 0 < h && 0 <= p < w * h) by (nonlinear_arith)
        requires w * h * 4 > 0 && 0 <= i < w * h * 4 && p == i / 4 && 0 <= w && 0 <= h;
    lemma_pixel_coords(p, w, h);
    let x = p % w;
    let y = p / w;
    assert(!in_corner_cut(w, h, 0, x, y));
    lemma_base_color_bytes(alpha);
    assert(0 <= i % 4 < 4);
}

} // verus!
