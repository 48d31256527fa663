//! Triangle setup: edge functions, signed area, bounding box and the
//! top-left classification of edges.
//!
//! Positions are 16.16 fixed-point numbers, so every result below is an exact
//! integer. An edge value or an area is given in units of `2^-32` square
//! pixels.
use vstd::prelude::*;
use crate::fixed::{ceil_raw, floor_raw, Vec2};

verus! {

/// Area tolerance: a triangle whose doubled area is at most this many raw
/// units (the largest count that does not exceed one millionth of a square
/// pixel) is degenerate.
pub const EPS: i128 = 4294;

/// Cross product of `b - a` and `(px, py) - a`, all in raw units.
pub open spec fn edge_raw(a: Vec2, b: Vec2, px: int, py: int) -> int {
    (b.x.raw - a.x.raw) * (py - a.y.raw) - (b.y.raw - a.y.raw) * (px - a.x.raw)
}

/// Cross product of `b - a` and `p - a`; with `y` pointing down it is
/// positive when `p` lies to the right of the line from `a` to `b`.
pub open spec fn edge(a: Vec2, b: Vec2, p: Vec2) -> int {
    edge_raw(a, b, p.x.raw as int, p.y.raw as int)
}

/// Whether the edge from `a` to `b` is a top edge (level and pointing right)
/// or a left edge (pointing up).
pub open spec fn top_left(a: Vec2, b: Vec2) -> bool {
    let dx = b.x.raw - a.x.raw;
    let dy = b.y.raw - a.y.raw;
    dy < 0 || (dy == 0 && dx > 0)
}

pub open spec fn min3(a: int, b: int, c: int) -> int {
    if a <= b && a <= c {
        a
    } else if b <= c {
        b
    } else {
        c
    }
}

pub open spec fn max3(a: int, b: int, c: int) -> int {
    if a >= b && a >= c {
        a
    } else if b >= c {
        b
    } else {
        c
    }
}

/// First pixel column (or row) that a span starting at the raw coordinate
/// `lo` can touch, held at zero from below.
pub open spec fn span_first(lo: int) -> int {
    if floor_raw(lo) < 0 {
        0
    } else {
        floor_raw(lo)
    }
}

/// Last pixel column (or row) that a span ending at the raw coordinate `hi`
/// can touch in a buffer of `size` columns (or rows).
pub open spec fn span_last(hi: int, size: int) -> int {
    if ceil_raw(hi) - 1 > size - 1 {
        size - 1
    } else {
        ceil_raw(hi) - 1
    }
}

/// The pixel range `(min_x, min_y, max_x, max_y)` of a triangle inside a
/// buffer of `width` by `height` pixels. The range is empty (a minimum above
/// its maximum) when the triangle lies outside the buffer.
pub open spec fn bbox(v0: Vec2, v1: Vec2, v2: Vec2, width: int, height: int) -> (
    int,
    int,
    int,
    int,
) {
    (
        span_first(min3(v0.x.raw as int, v1.x.raw as int, v2.x.raw as int)),
        span_first(min3(v0.y.raw as int, v1.y.raw as int, v2.y.raw as int)),
        span_last(max3(v0.x.raw as int, v1.x.raw as int, v2.x.raw as int), width),
        span_last(max3(v0.y.raw as int, v1.y.raw as int, v2.y.raw as int), height),
    )
}

/// An edge value of points with 32-bit raw coordinates stays below `2^65`.
pub proof fn lemma_edge_bound(a: Vec2, b: Vec2, px: int, py: int)
    requires
        -0x8000_0000 <= px < 0x8000_0000,
        -0x8000_0000 <= py < 0x8000_0000,
    ensures
        -0x2_0000_0000_0000_0000 < edge_raw(a, b, px, py) < 0x2_0000_0000_0000_0000,
{
    let abx = b.x.raw - a.x.raw;
    let aby = b.y.raw - a.y.raw;
    let apx = px - a.x.raw;
    let apy = py - a.y.raw;
    lemma_product_bound(abx, apy);
    lemma_product_bound(aby, apx);
}

/// The product of two differences of 32-bit numbers stays below `2^64`.
pub proof fn lemma_product_bound(s: int, t: int)
    requires
        -0x1_0000_0000 < s < 0x1_0000_0000,
        -0x1_0000_0000 < t < 0x1_0000_0000,
    ensures
        -0x1_0000_0000_0000_0000 < s * t < 0x1_0000_0000_0000_0000,
{
    assert(-0x1_0000_0000_0000_0000 < s * t < 0x1_0000_0000_0000_0000) by (nonlinear_arith)
        requires
            -0x1_0000_0000 < s < 0x1_0000_0000,
            -0x1_0000_0000 < t < 0x1_0000_0000,
    ;
}

/// Edge function of `a`, `b` and `p`: the cross product of `b - a` and `p - a`.
pub fn edge_function(a: Vec2, b: Vec2, p: Vec2) -> (e: i128)
    ensures
        e == edge(a, b, p),
        -0x2_0000_0000_0000_0000 < e < 0x2_0000_0000_0000_0000,
{
    let abx: i128 = b.x.raw as i128 - a.x.raw as i128;
    let aby: i128 = b.y.raw as i128 - a.y.raw as i128;
    let apx: i128 = p.x.raw as i128 - a.x.raw as i128;
    let apy: i128 = p.y.raw as i128 - a.y.raw as i128;
    proof {
        lemma_product_bound(abx as int, apy as int);
        lemma_product_bound(aby as int, apx as int);
    }
    abx * apy - aby * apx
}

/// Doubled signed area of the triangle; its sign gives the winding.
pub fn signed_area(v0: Vec2, v1: Vec2, v2: Vec2) -> (e: i128)
    ensures
        e == edge(v0, v1, v2),
        -0x2_0000_0000_0000_0000 < e < 0x2_0000_0000_0000_0000,
{
    edge_function(v0, v1, v2)
}

/// The smallest of three raw values.
fn least(a: i32, b: i32, c: i32) -> (m: i32)
    ensures
        m == min3(a as int, b as int, c as int),
{
    if a <= b && a <= c {
        a
    } else if b <= c {
        b
    } else {
        c
    }
}

/// The largest of three raw values.
fn greatest(a: i32, b: i32, c: i32) -> (m: i32)
    ensures
        m == max3(a as int, b as int, c as int),
{
    if a >= b && a >= c {
        a
    } else if b >= c {
        b
    } else {
        c
    }
}

/// First pixel index of a span that starts at `lo`.
fn first_index(lo: i32) -> (i: i32)
    ensures
        i == span_first(lo as int),
        0 <= i <= 32767,
{
    let f = (crate::fixed::Fixed { raw: lo }).floor();
    if f < 0 {
        0
    } else {
        f
    }
}

/// Last pixel index of a span that ends at `hi`, in a buffer of `size`.
fn last_index(hi: i32, size: usize) -> (i: i32)
    ensures
        i == span_last(hi as int, size as int),
        -32769 <= i <= 32767,
{
    let c = (crate::fixed::Fixed { raw: hi }).ceil() - 1;
    if size <= 32767 && c > size as i32 - 1 {
        size as i32 - 1
    } else {
        c
    }
}

/// Pixel range `(min_x, min_y, max_x, max_y)` of the triangle inside a
/// buffer of `width` by `height` pixels: from the floor of the least
/// coordinate to the ceiling of the greatest less one, cut to the buffer.
/// A triangle outside the buffer, or an empty buffer, gives an empty range.
pub fn bbox_clamped(v0: Vec2, v1: Vec2, v2: Vec2, width: usize, height: usize) -> (r: (
    i32,
    i32,
    i32,
    i32,
))
    ensures
        (r.0 as int, r.1 as int, r.2 as int, r.3 as int) == bbox(
            v0,
            v1,
            v2,
            width as int,
            height as int,
        ),
        0 <= r.0 <= 32767,
        0 <= r.1 <= 32767,
        r.2 <= 32767,
        r.3 <= 32767,
{
    let min_x = first_index(least(v0.x.raw, v1.x.raw, v2.x.raw));
    let min_y = first_index(least(v0.y.raw, v1.y.raw, v2.y.raw));
    let max_x = last_index(greatest(v0.x.raw, v1.x.raw, v2.x.raw), width);
    let max_y = last_index(greatest(v0.y.raw, v1.y.raw, v2.y.raw), height);
    (min_x, min_y, max_x, max_y)
}

/// Top-left rule: whether the edge from `a` to `b` is a top or a left edge.
pub fn is_top_left(a: Vec2, b: Vec2) -> (tl: bool)
    ensures
        tl == top_left(a, b),
{
    let dx: i64 = b.x.raw as i64 - a.x.raw as i64;
    let dy: i64 = b.y.raw as i64 - a.y.raw as i64;
    dy < 0 || (dy == 0 && dx > 0)
}

} // verus!
