//! The triangle rasterizer: coverage by edge functions with the top-left
//! tie-break, exact barycentric weights, and three ways of shading.
use vstd::prelude::*;
use crate::fixed::{Fixed, Vec2, Vec3, HALF_RAW, ONE_RAW};
use crate::frame::Frame;
use crate::pix::Color;
use crate::arith::lemma_div_between;
use crate::setup::{
    bbox, bbox_clamped, edge, edge_function, edge_raw, is_top_left, max3, min3, signed_area,
    top_left, EPS,
};
use crate::texture::{clamp_unit, Texture};
use vstd::arithmetic::div_mod::{
    lemma_fundamental_div_mod, lemma_fundamental_div_mod_converse, lemma_mod_bound,
};

verus! {

/// A corner of a triangle: screen position, texture coordinate and colour.
///
/// Only `x` and `y` of the position are read; `z` is kept for a depth buffer.
/// The three colour channels are nominally inside `[0, 1]`.
#[derive(Copy, Clone, Debug)]
pub struct Vertex {
    pub pos: Vec3,
    pub uv: Vec2,
    pub color: [Fixed; 3],
}

impl Vertex {
    /// A white vertex at `pos` with texture coordinate zero.
    pub fn new(pos: Vec3) -> (v: Vertex)
        ensures
            v.pos == pos,
            v.uv.x.raw == 0,
            v.uv.y.raw == 0,
            v.color[0].raw == 65536,
            v.color[1].raw == 65536,
            v.color[2].raw == 65536,
    {
        Vertex { pos, uv: Vec2::zero(), color: [Fixed::one(), Fixed::one(), Fixed::one()] }
    }

    /// The position without its depth.
    pub open spec fn xy(self) -> Vec2 {
        Vec2 { x: self.pos.x, y: self.pos.y }
    }
}

/// Raw coordinate of the centre of pixel column (or row) `i`.
pub open spec fn center(i: int) -> int {
    i * 65536 + 32768
}

/// Whether the triangle is too thin to be drawn.
pub open spec fn degenerate(p0: Vec2, p1: Vec2, p2: Vec2) -> bool {
    -EPS <= edge(p0, p1, p2) <= EPS
}

/// `1` for a triangle of non-negative area, `-1` otherwise.
pub open spec fn orientation(p0: Vec2, p1: Vec2, p2: Vec2) -> int {
    if edge(p0, p1, p2) < 0 {
        -1
    } else {
        1
    }
}

/// The doubled area of the triangle, without its sign.
pub open spec fn abs_area(p0: Vec2, p1: Vec2, p2: Vec2) -> int {
    orientation(p0, p1, p2) * edge(p0, p1, p2)
}

/// Edge value of the centre of pixel `(x, y)` against the edge from `a` to
/// `b`, turned by `sign` so that the inside is never negative.
pub open spec fn weight(a: Vec2, b: Vec2, sign: int, x: int, y: int) -> int {
    sign * edge_raw(a, b, center(x), center(y))
}

/// Weight of the first vertex at pixel `(x, y)`.
pub open spec fn weight0(p0: Vec2, p1: Vec2, p2: Vec2, x: int, y: int) -> int {
    weight(p1, p2, orientation(p0, p1, p2), x, y)
}

/// Weight of the second vertex at pixel `(x, y)`.
pub open spec fn weight1(p0: Vec2, p1: Vec2, p2: Vec2, x: int, y: int) -> int {
    weight(p2, p0, orientation(p0, p1, p2), x, y)
}

/// Weight of the third vertex at pixel `(x, y)`.
pub open spec fn weight2(p0: Vec2, p1: Vec2, p2: Vec2, x: int, y: int) -> int {
    weight(p0, p1, orientation(p0, p1, p2), x, y)
}

/// The inside test of one edge: a top-left edge owns the points on it.
pub open spec fn passes(tl: bool, w: int) -> bool {
    if tl {
        w >= 0
    } else {
        w > 0
    }
}

/// The inside test: whether the centre of pixel `(x, y)` passes the test of
/// all three edges.
pub open spec fn inside(p0: Vec2, p1: Vec2, p2: Vec2, x: int, y: int) -> bool {
    &&& passes(top_left(p1, p2), weight0(p0, p1, p2, x, y))
    &&& passes(top_left(p2, p0), weight1(p0, p1, p2, x, y))
    &&& passes(top_left(p0, p1), weight2(p0, p1, p2, x, y))
}

/// Whether the triangle covers pixel `(x, y)`: it is not degenerate and the
/// pixel's centre passes the inside test.
pub open spec fn covered(p0: Vec2, p1: Vec2, p2: Vec2, x: int, y: int) -> bool {
    !degenerate(p0, p1, p2) && inside(p0, p1, p2, x, y)
}

/// The three weights of any point add up to the doubled area.
pub proof fn lemma_weights_sum(p0: Vec2, p1: Vec2, p2: Vec2, x: int, y: int)
    ensures
        weight0(p0, p1, p2, x, y) + weight1(p0, p1, p2, x, y) + weight2(p0, p1, p2, x, y)
            == abs_area(p0, p1, p2),
{
    let s = orientation(p0, p1, p2);
    let cx = center(x);
    let cy = center(y);
    lemma_edges_sum(
        p0.x.raw as int,
        p0.y.raw as int,
        p1.x.raw as int,
        p1.y.raw as int,
        p2.x.raw as int,
        p2.y.raw as int,
        cx,
        cy,
    );
    let e0 = edge_raw(p1, p2, cx, cy);
    let e1 = edge_raw(p2, p0, cx, cy);
    let e2 = edge_raw(p0, p1, cx, cy);
    assert(s * e0 + s * e1 + s * e2 == s * (e0 + e1 + e2)) by (nonlinear_arith);
}

/// `(a - b) * (c - d)` multiplied out.
proof fn lemma_expand(a: int, b: int, c: int, d: int)
    ensures
        (a - b) * (c - d) == a * c - a * d - b * c + b * d,
{
    assert((a - b) * (c - d) == a * c - a * d - b * c + b * d) by (nonlinear_arith);
}

/// The edge values of a point against the three edges add up to the area.
proof fn lemma_edges_sum(
    x0: int,
    y0: int,
    x1: int,
    y1: int,
    x2: int,
    y2: int,
    px: int,
    py: int,
)
    ensures
        ((x2 - x1) * (py - y1) - (y2 - y1) * (px - x1)) + ((x0 - x2) * (py - y2) - (y0 - y2) * (px
            - x2)) + ((x1 - x0) * (py - y0) - (y1 - y0) * (px - x0)) == (x1 - x0) * (y2 - y0) - (y1
            - y0) * (x2 - x0),
{
    lemma_expand(x2, x1, py, y1);
    lemma_expand(y2, y1, px, x1);
    lemma_expand(x0, x2, py, y2);
    lemma_expand(y0, y2, px, x2);
    lemma_expand(x1, x0, py, y0);
    lemma_expand(y1, y0, px, x0);
    lemma_expand(x1, x0, y2, y0);
    lemma_expand(y1, y0, x2, x0);
    lemma_commute(x1, y1);
    lemma_commute(x2, y2);
    lemma_commute(x0, y0);
    lemma_commute(x0, y1);
    lemma_commute(x0, y2);
    lemma_commute(x1, y0);
    lemma_commute(x1, y2);
    lemma_commute(x2, y0);
    lemma_commute(x2, y1);
    lemma_commute(px, y0);
    lemma_commute(px, y1);
    lemma_commute(px, y2);
    lemma_commute(py, x0);
    lemma_commute(py, x1);
    lemma_commute(py, x2);
}

/// Multiplication does not depend on the order of its factors.
proof fn lemma_commute(a: int, b: int)
    ensures
        a * b == b * a,
{
    assert(a * b == b * a) by (nonlinear_arith);
}

/// Cross product of two vectors.
pub open spec fn cross(ax: int, ay: int, bx: int, by: int) -> int {
    ax * by - ay * bx
}

/// An edge value is the cross product of the vectors from the point to the
/// two ends of the edge.
proof fn lemma_edge_as_cross(a: Vec2, b: Vec2, px: int, py: int)
    ensures
        edge_raw(a, b, px, py) == cross(a.x.raw - px, a.y.raw - py, b.x.raw - px, b.y.raw - py),
{
    let ax = a.x.raw - px;
    let ay = a.y.raw - py;
    let bx = b.x.raw - px;
    let by = b.y.raw - py;
    assert(b.x.raw - a.x.raw == bx - ax);
    assert(b.y.raw - a.y.raw == by - ay);
    assert(py - a.y.raw == 0 - ay);
    assert(px - a.x.raw == 0 - ax);
    lemma_expand(bx, ax, 0, ay);
    lemma_expand(by, ay, 0, ax);
    lemma_commute(ax, ay);
    lemma_commute(bx, ay);
    lemma_commute(by, ax);
    assert(bx * 0 == 0 && by * 0 == 0 && ax * 0 == 0 && ay * 0 == 0);
}

/// For three vectors `a`, `b`, `c` of the plane,
/// `cross(b, c) * a + cross(c, a) * b + cross(a, b) * c` is the zero vector.
proof fn lemma_cross_cycle(ax: int, ay: int, bx: int, by: int, cx: int, cy: int)
    ensures
        cross(bx, by, cx, cy) * ax + cross(cx, cy, ax, ay) * bx + cross(ax, ay, bx, by) * cx == 0,
        cross(bx, by, cx, cy) * ay + cross(cx, cy, ax, ay) * by + cross(ax, ay, bx, by) * cy == 0,
{
    assert((bx * cy - by * cx) * ax + (cx * ay - cy * ax) * bx + (ax * by - ay * bx) * cx == 0)
        by (nonlinear_arith);
    assert((bx * cy - by * cx) * ay + (cx * ay - cy * ax) * by + (ax * by - ay * bx) * cy == 0)
        by (nonlinear_arith);
}

/// Three non-negative numbers, not all zero, cannot weigh three positive
/// numbers to zero.
proof fn lemma_positive_mix(w0: int, w1: int, w2: int, d0: int, d1: int, d2: int)
    requires
        w0 >= 0,
        w1 >= 0,
        w2 >= 0,
        w0 + w1 + w2 > 0,
        d0 > 0,
        d1 > 0,
        d2 > 0,
    ensures
        w0 * d0 + w1 * d1 + w2 * d2 > 0,
{
    assert(w0 * d0 >= w0) by (nonlinear_arith)
        requires
            w0 >= 0,
            d0 >= 1,
    ;
    assert(w1 * d1 >= w1) by (nonlinear_arith)
        requires
            w1 >= 0,
            d1 >= 1,
    ;
    assert(w2 * d2 >= w2) by (nonlinear_arith)
        requires
            w2 >= 0,
            d2 >= 1,
    ;
}

/// A point whose three weights are non-negative, with a positive sum, lies
/// between the least and the greatest coordinate of the corners.
proof fn lemma_inside_between(
    w0: int,
    w1: int,
    w2: int,
    q0: int,
    q1: int,
    q2: int,
    p: int,
)
    requires
        w0 >= 0,
        w1 >= 0,
        w2 >= 0,
        w0 + w1 + w2 > 0,
        w0 * (q0 - p) + w1 * (q1 - p) + w2 * (q2 - p) == 0,
    ensures
        min3(q0, q1, q2) <= p <= max3(q0, q1, q2),
{
    if p < min3(q0, q1, q2) {
        lemma_positive_mix(w0, w1, w2, q0 - p, q1 - p, q2 - p);
    }
    if p > max3(q0, q1, q2) {
        lemma_positive_mix(w0, w1, w2, p - q0, p - q1, p - q2);
        assert(w0 * (p - q0) == -(w0 * (q0 - p))) by (nonlinear_arith);
        assert(w1 * (p - q1) == -(w1 * (q1 - p))) by (nonlinear_arith);
        assert(w2 * (p - q2) == -(w2 * (q2 - p))) by (nonlinear_arith);
    }
}

/// Multiplying by a sign keeps or negates a number.
proof fn lemma_sign_mul(s: int, e: int)
    requires
        s == 1 || s == -1,
    ensures
        s * e == (if s == 1 {
            e
        } else {
            -e
        }),
{
    assert(1 * e == e) by (nonlinear_arith);
    assert((-1) * e == -e) by (nonlinear_arith);
}

/// A sign can be moved out of a product.
proof fn lemma_sign_out(s: int, e: int, d: int)
    requires
        s == 1 || s == -1,
    ensures
        (s * e) * d == (if s == 1 {
            e * d
        } else {
            -(e * d)
        }),
{
    lemma_sign_mul(s, e);
    assert((-e) * d == -(e * d)) by (nonlinear_arith);
}

/// The weights of a covered pixel are non-negative and add up to the
/// (positive) doubled area.
pub proof fn lemma_covered_weights(p0: Vec2, p1: Vec2, p2: Vec2, x: int, y: int)
    requires
        covered(p0, p1, p2, x, y),
    ensures
        weight0(p0, p1, p2, x, y) >= 0,
        weight1(p0, p1, p2, x, y) >= 0,
        weight2(p0, p1, p2, x, y) >= 0,
        abs_area(p0, p1, p2) > EPS,
        weight0(p0, p1, p2, x, y) + weight1(p0, p1, p2, x, y) + weight2(p0, p1, p2, x, y)
            == abs_area(p0, p1, p2),
{
    lemma_weights_sum(p0, p1, p2, x, y);
    lemma_sign_mul(orientation(p0, p1, p2), edge(p0, p1, p2));
}

/// The centre of a covered pixel lies inside the bounding box of the corners.
pub proof fn lemma_covered_center(p0: Vec2, p1: Vec2, p2: Vec2, x: int, y: int)
    requires
        covered(p0, p1, p2, x, y),
    ensures
        min3(p0.x.raw as int, p1.x.raw as int, p2.x.raw as int) <= center(x) <= max3(
            p0.x.raw as int,
            p1.x.raw as int,
            p2.x.raw as int,
        ),
        min3(p0.y.raw as int, p1.y.raw as int, p2.y.raw as int) <= center(y) <= max3(
            p0.y.raw as int,
            p1.y.raw as int,
            p2.y.raw as int,
        ),
{
    let s = orientation(p0, p1, p2);
    let px = center(x);
    let py = center(y);
    let ax = p0.x.raw - px;
    let ay = p0.y.raw - py;
    let bx = p1.x.raw - px;
    let by = p1.y.raw - py;
    let cx = p2.x.raw - px;
    let cy = p2.y.raw - py;
    let e0 = edge_raw(p1, p2, px, py);
    let e1 = edge_raw(p2, p0, px, py);
    let e2 = edge_raw(p0, p1, px, py);
    lemma_covered_weights(p0, p1, p2, x, y);
    lemma_edge_as_cross(p1, p2, px, py);
    lemma_edge_as_cross(p2, p0, px, py);
    lemma_edge_as_cross(p0, p1, px, py);
    lemma_cross_cycle(ax, ay, bx, by, cx, cy);
    lemma_sign_out(s, e0, ax);
    lemma_sign_out(s, e1, bx);
    lemma_sign_out(s, e2, cx);
    lemma_sign_out(s, e0, ay);
    lemma_sign_out(s, e1, by);
    lemma_sign_out(s, e2, cy);
    lemma_inside_between(
        s * e0,
        s * e1,
        s * e2,
        p0.x.raw as int,
        p1.x.raw as int,
        p2.x.raw as int,
        px,
    );
    lemma_inside_between(
        s * e0,
        s * e1,
        s * e2,
        p0.y.raw as int,
        p1.y.raw as int,
        p2.y.raw as int,
        py,
    );
}

/// A covered pixel of a buffer lies inside the triangle's pixel range.
pub proof fn lemma_covered_in_bbox(
    p0: Vec2,
    p1: Vec2,
    p2: Vec2,
    width: int,
    height: int,
    x: int,
    y: int,
)
    requires
        covered(p0, p1, p2, x, y),
        0 <= x < width,
        0 <= y < height,
    ensures
        bbox(p0, p1, p2, width, height).0 <= x <= bbox(p0, p1, p2, width, height).2,
        bbox(p0, p1, p2, width, height).1 <= y <= bbox(p0, p1, p2, width, height).3,
{
    lemma_covered_center(p0, p1, p2, x, y);
}

/// What a shader may assume of the weights it is handed: none is negative,
/// and they add up to the doubled area, which is positive.
pub open spec fn valid_weights(w0: int, w1: int, w2: int, area: int) -> bool {
    &&& 0 <= w0
    &&& 0 <= w1
    &&& 0 <= w2
    &&& w0 + w1 + w2 == area
    &&& 0 < area < 0x2_0000_0000_0000_0000
}

/// The per-pixel step of the rasterizer: a colour for a covered pixel, from
/// its position and its weights. The normalized weight of a vertex is its
/// weight divided by `area`.
trait Shader {
    spec fn color_for(&self, x: int, y: int, w0: int, w1: int, w2: int, area: int) -> Color;

    fn shade(&self, x: i32, y: i32, w0: i128, w1: i128, w2: i128, area: i128) -> (c: Color)
        requires
            valid_weights(w0 as int, w1 as int, w2 as int, area as int),
        ensures
            c == self.color_for(x as int, y as int, w0 as int, w1 as int, w2 as int, area as int),
    ;
}

/// The packed pixel that `(x, y)` holds once the rows before `row`, and the
/// pixels before `col` in row `row`, have been rasterized.
spec fn progress<S: Shader>(
    before: &Frame,
    shader: &S,
    p0: Vec2,
    p1: Vec2,
    p2: Vec2,
    row: int,
    col: int,
    x: int,
    y: int,
) -> u32 {
    if (y < row || (y == row && x < col)) && covered(p0, p1, p2, x, y) {
        shader.color_for(
            x,
            y,
            weight0(p0, p1, p2, x, y),
            weight1(p0, p1, p2, x, y),
            weight2(p0, p1, p2, x, y),
            abs_area(p0, p1, p2),
        ).packed()
    } else {
        before.pixel_at(x, y)
    }
}

/// Whether `after` is `before` with every covered pixel replaced by the
/// shader's colour for it, and nothing else changed.
spec fn shaded<S: Shader>(
    before: &Frame,
    after: &Frame,
    shader: &S,
    p0: Vec2,
    p1: Vec2,
    p2: Vec2,
) -> bool {
    &&& after.spec_width() == before.spec_width()
    &&& after.spec_height() == before.spec_height()
    &&& forall|x: int, y: int|
        before.in_bounds(x, y) ==> #[trigger] after.pixel_at(x, y) == (if covered(
            p0,
            p1,
            p2,
            x,
            y,
        ) {
            shader.color_for(
                x,
                y,
                weight0(p0, p1, p2, x, y),
                weight1(p0, p1, p2, x, y),
                weight2(p0, p1, p2, x, y),
                abs_area(p0, p1, p2),
            ).packed()
        } else {
            before.pixel_at(x, y)
        })
}

/// The inside test of one edge.
fn edge_passes(tl: bool, w: i128) -> (b: bool)
    ensures
        b == passes(tl, w as int),
{
    if tl {
        w >= 0
    } else {
        w > 0
    }
}

/// The position of a vertex without its depth.
fn position(v: &Vertex) -> (p: Vec2)
    ensures
        p == v.xy(),
{
    Vec2 { x: v.pos.x, y: v.pos.y }
}

/// The centre of pixel `(x, y)`.
fn pixel_center(x: i32, y: i32) -> (c: Vec2)
    requires
        0 <= x <= 32767,
        0 <= y <= 32767,
    ensures
        c.x.raw == center(x as int),
        c.y.raw == center(y as int),
{
    Vec2 { x: Fixed { raw: x * ONE_RAW + HALF_RAW }, y: Fixed { raw: y * ONE_RAW + HALF_RAW } }
}

/// Weight of pixel centre `c` against the edge from `a` to `b`, turned so
/// that the inside of the triangle is never negative.
fn oriented_edge(a: Vec2, b: Vec2, c: Vec2, negative: bool) -> (w: i128)
    ensures
        w == (if negative {
            -1int
        } else {
            1int
        }) * edge(a, b, c),
        -0x2_0000_0000_0000_0000 < w < 0x2_0000_0000_0000_0000,
{
    let e = edge_function(a, b, c);
    proof {
        lemma_sign_mul(
            if negative {
                -1
            } else {
                1
            },
            e as int,
        );
    }
    if negative {
        -e
    } else {
        e
    }
}

/// The shared scan: finds the orientation and the pixel range once, then
/// tests every pixel centre of the range against the three edges and writes
/// the shader's colour to each pixel that passes.
fn raster_core<S: Shader>(frame: &mut Frame, v0: Vertex, v1: Vertex, v2: Vertex, shader: &S)
    ensures
        shaded(old(frame), final(frame), shader, v0.xy(), v1.xy(), v2.xy()),
{
    let ghost before = *frame;
    let p0 = position(&v0);
    let p1 = position(&v1);
    let p2 = position(&v2);
    let area = signed_area(p0, p1, p2);
    if -EPS <= area && area <= EPS {
        return ;
    }
    let negative = area < 0;
    let abs = if negative {
        -area
    } else {
        area
    };
    proof {
        lemma_sign_mul(orientation(p0, p1, p2), edge(p0, p1, p2));
    }
    let width = frame.width();
    let height = frame.height();
    let (min_x, min_y, max_x, max_y) = bbox_clamped(p0, p1, p2, width, height);
    if min_x > max_x || min_y > max_y {
        proof {
            assert forall|x: int, y: int| before.in_bounds(x, y) implies !covered(
                p0,
                p1,
                p2,
                x,
                y,
            ) by {
                if covered(p0, p1, p2, x, y) {
                    lemma_covered_in_bbox(p0, p1, p2, width as int, height as int, x, y);
                }
            }
        }
        return ;
    }
    let tl0 = is_top_left(p1, p2);
    let tl1 = is_top_left(p2, p0);
    let tl2 = is_top_left(p0, p1);
    let mut y = min_y;
    proof {
        assert forall|px: int, py: int| before.in_bounds(px, py) implies #[trigger] frame.pixel_at(
            px,
            py,
        ) == progress(&before, shader, p0, p1, p2, min_y as int, min_x as int, px, py) by {
            if covered(p0, p1, p2, px, py) {
                lemma_covered_in_bbox(p0, p1, p2, width as int, height as int, px, py);
            }
        }
    }
    while y <= max_y
        invariant
            min_y <= y <= max_y + 1,
            0 <= min_x <= max_x <= 32767,
            0 <= min_y <= max_y <= 32767,
            (min_x as int, min_y as int, max_x as int, max_y as int) == bbox(
                p0,
                p1,
                p2,
                width as int,
                height as int,
            ),
            width == before.spec_width(),
            height == before.spec_height(),
            frame.spec_width() == before.spec_width(),
            frame.spec_height() == before.spec_height(),
            !degenerate(p0, p1, p2),
            negative == (orientation(p0, p1, p2) == -1),
            abs == abs_area(p0, p1, p2),
            0 < abs < 0x2_0000_0000_0000_0000,
            tl0 == top_left(p1, p2),
            tl1 == top_left(p2, p0),
            tl2 == top_left(p0, p1),
            forall|px: int, py: int|
                before.in_bounds(px, py) ==> #[trigger] frame.pixel_at(px, py) == progress(
                    &before,
                    shader,
                    p0,
                    p1,
                    p2,
                    y as int,
                    min_x as int,
                    px,
                    py,
                ),
        decreases max_y + 1 - y,
    {
        let mut x = min_x;
        while x <= max_x
            invariant
                min_x <= x <= max_x + 1,
                min_y <= y <= max_y,
                0 <= min_x <= max_x <= 32767,
                0 <= min_y <= max_y <= 32767,
                (min_x as int, min_y as int, max_x as int, max_y as int) == bbox(
                    p0,
                    p1,
                    p2,
                    width as int,
                    height as int,
                ),
                width == before.spec_width(),
                height == before.spec_height(),
                frame.spec_width() == before.spec_width(),
                frame.spec_height() == before.spec_height(),
                !degenerate(p0, p1, p2),
                negative == (orientation(p0, p1, p2) == -1),
                abs == abs_area(p0, p1, p2),
                0 < abs < 0x2_0000_0000_0000_0000,
                tl0 == top_left(p1, p2),
                tl1 == top_left(p2, p0),
                tl2 == top_left(p0, p1),
                forall|px: int, py: int|
                    before.in_bounds(px, py) ==> #[trigger] frame.pixel_at(px, py) == progress(
                        &before,
                        shader,
                        p0,
                        p1,
                        p2,
                        y as int,
                        x as int,
                        px,
                        py,
                    ),
            decreases max_x + 1 - x,
        {
            let ghost prev = *frame;
            let c = pixel_center(x, y);
            let w0 = oriented_edge(p1, p2, c, negative);
            let w1 = oriented_edge(p2, p0, c, negative);
            let w2 = oriented_edge(p0, p1, c, negative);
            let inside = edge_passes(tl0, w0) && edge_passes(tl1, w1) && edge_passes(tl2, w2);
            assert(inside == covered(p0, p1, p2, x as int, y as int));
            if inside {
                proof {
                    lemma_covered_weights(p0, p1, p2, x as int, y as int);
                }
                let color = shader.shade(x, y, w0, w1, w2, abs);
                frame.set_pixel(x, y, color);
                proof {
                    assert forall|px: int, py: int| before.in_bounds(px, py) implies #[trigger]
                        frame.pixel_at(px, py) == progress(
                        &before,
                        shader,
                        p0,
                        p1,
                        p2,
                        y as int,
                        x + 1,
                        px,
                        py,
                    ) by {
                        assert(prev.pixel_at(px, py) == progress(
                            &before,
                            shader,
                            p0,
                            p1,
                            p2,
                            y as int,
                            x as int,
                            px,
                            py,
                        ));
                        frame.as_surface().lemma_update_reads(
                            &prev.as_surface(),
                            x as int,
                            y as int,
                            color.packed(),
                            px,
                            py,
                        );
                    }
                }
            }
            x += 1;
        }
        proof {
            assert forall|px: int, py: int| before.in_bounds(px, py) implies #[trigger]
                frame.pixel_at(px, py) == progress(
                &before,
                shader,
                p0,
                p1,
                p2,
                y + 1,
                min_x as int,
                px,
                py,
            ) by {
                if covered(p0, p1, p2, px, py) {
                    lemma_covered_in_bbox(p0, p1, p2, width as int, height as int, px, py);
                }
            }
        }
        y += 1;
    }
    proof {
        assert forall|px: int, py: int| before.in_bounds(px, py) implies #[trigger] frame.pixel_at(
            px,
            py,
        ) == progress(&before, shader, p0, p1, p2, height as int, 0, px, py) by {
            if covered(p0, p1, p2, px, py) {
                lemma_covered_in_bbox(p0, p1, p2, width as int, height as int, px, py);
            }
        }
    }
}

/// Quotient rounded towards negative infinity.
fn div_floor(n: i128, d: i128) -> (q: i128)
    requires
        d > 0,
        n > -0x4000_0000_0000_0000_0000_0000_0000_0000,
    ensures
        q == n / d,
{
    let q0 = n / d;
    let r0 = n % d;
    proof {
        if n < 0 {
            let m = -n;
            lemma_fundamental_div_mod(m, d as int);
            lemma_mod_bound(m, d as int);
            if m % (d as int) == 0 {
                assert(n == (-(m / (d as int))) * d + 0) by (nonlinear_arith)
                    requires
                        m == d * (m / (d as int)),
                        n == -m,
                ;
                lemma_fundamental_div_mod_converse(n as int, d as int, -(m / (d as int)), 0);
            } else {
                assert(n == (-(m / (d as int)) - 1) * d + (d - m % (d as int)))
                    by (nonlinear_arith)
                    requires
                        m == d * (m / (d as int)) + m % (d as int),
                        n == -m,
                ;
                lemma_fundamental_div_mod_converse(
                    n as int,
                    d as int,
                    -(m / (d as int)) - 1,
                    d - m % (d as int),
                );
            }
        }
    }
    if r0 < 0 {
        q0 - 1
    } else {
        q0
    }
}

/// The attribute of a pixel with the given weights, from the attributes
/// `q0`, `q1`, `q2` of the three vertices: their weighted mean, rounded to the
/// nearest raw value (half up).
pub open spec fn blend(w0: int, w1: int, w2: int, area: int, q0: int, q1: int, q2: int) -> int {
    (2 * (w0 * q0 + w1 * q1 + w2 * q2) + area) / (2 * area)
}

/// A colour channel as a byte: held inside `[0, 1]`, scaled by 255 and
/// rounded half up.
pub open spec fn quantize(raw: int) -> int {
    (clamp_unit(raw) * 255 + 32768) / 65536
}

/// The weighted sum of three attributes lies between the least and the
/// greatest of them, each times the sum of the weights.
proof fn lemma_weighted_sum_between(
    w0: int,
    w1: int,
    w2: int,
    q0: int,
    q1: int,
    q2: int,
)
    requires
        w0 >= 0,
        w1 >= 0,
        w2 >= 0,
    ensures
        min3(q0, q1, q2) * (w0 + w1 + w2) <= w0 * q0 + w1 * q1 + w2 * q2 <= max3(q0, q1, q2) * (w0
            + w1 + w2),
{
    let lo = min3(q0, q1, q2);
    let hi = max3(q0, q1, q2);
    assert(lo * w0 <= w0 * q0 <= hi * w0) by (nonlinear_arith)
        requires
            w0 >= 0,
            lo <= q0 <= hi,
    ;
    assert(lo * w1 <= w1 * q1 <= hi * w1) by (nonlinear_arith)
        requires
            w1 >= 0,
            lo <= q1 <= hi,
    ;
    assert(lo * w2 <= w2 * q2 <= hi * w2) by (nonlinear_arith)
        requires
            w2 >= 0,
            lo <= q2 <= hi,
    ;
    assert(lo * (w0 + w1 + w2) == lo * w0 + lo * w1 + lo * w2) by (nonlinear_arith);
    assert(hi * (w0 + w1 + w2) == hi * w0 + hi * w1 + hi * w2) by (nonlinear_arith);
}

/// A blended attribute lies between the least and the greatest attribute of
/// the three vertices.
pub proof fn lemma_blend_between(
    w0: int,
    w1: int,
    w2: int,
    area: int,
    q0: int,
    q1: int,
    q2: int,
)
    requires
        valid_weights(w0, w1, w2, area),
    ensures
        min3(q0, q1, q2) <= blend(w0, w1, w2, area, q0, q1, q2) <= max3(q0, q1, q2),
{
    let lo = min3(q0, q1, q2);
    let hi = max3(q0, q1, q2);
    let n = w0 * q0 + w1 * q1 + w2 * q2;
    lemma_weighted_sum_between(w0, w1, w2, q0, q1, q2);
    assert(lo * (2 * area) == 2 * (lo * area)) by (nonlinear_arith);
    assert((hi + 1) * (2 * area) == 2 * (hi * area) + 2 * area) by (nonlinear_arith);
    lemma_div_between(2 * n + area, 2 * area, lo, hi);
}

/// Three equal attributes blend to themselves.
pub proof fn lemma_blend_constant(w0: int, w1: int, w2: int, area: int, q: int)
    requires
        valid_weights(w0, w1, w2, area),
    ensures
        blend(w0, w1, w2, area, q, q, q) == q,
{
    lemma_blend_between(w0, w1, w2, area, q, q, q);
}

/// Weighted mean of three raw attributes, rounded to the nearest raw value.
fn interpolate(w0: i128, w1: i128, w2: i128, area: i128, q0: i32, q1: i32, q2: i32) -> (r: i32)
    requires
        valid_weights(w0 as int, w1 as int, w2 as int, area as int),
    ensures
        r == blend(w0 as int, w1 as int, w2 as int, area as int, q0 as int, q1 as int, q2 as int),
{
    proof {
        lemma_blend_between(
            w0 as int,
            w1 as int,
            w2 as int,
            area as int,
            q0 as int,
            q1 as int,
            q2 as int,
        );
        lemma_term_bound(w0 as int, q0 as int);
        lemma_term_bound(w1 as int, q1 as int);
        lemma_term_bound(w2 as int, q2 as int);
    }
    let n: i128 = w0 * (q0 as i128) + w1 * (q1 as i128) + w2 * (q2 as i128);
    let q = div_floor(2 * n + area, 2 * area);
    q as i32
}

/// A weight times a 32-bit attribute stays below `2^96`.
proof fn lemma_term_bound(w: int, q: int)
    requires
        0 <= w < 0x2_0000_0000_0000_0000,
        -0x8000_0000 <= q < 0x8000_0000,
    ensures
        -0x1_0000_0000_0000_0000_0000_0000 <= w * q <= 0x1_0000_0000_0000_0000_0000_0000,
{
    assert(-0x1_0000_0000_0000_0000_0000_0000 <= w * q <= 0x1_0000_0000_0000_0000_0000_0000)
        by (nonlinear_arith)
        requires
            0 <= w < 0x2_0000_0000_0000_0000,
            -0x8000_0000 <= q < 0x8000_0000,
    ;
}

/// A raw colour channel as a byte.
fn quantize_channel(raw: i32) -> (q: u8)
    ensures
        q == quantize(raw as int),
{
    let c: i32 = if raw < 0 {
        0
    } else if raw > 65536 {
        65536
    } else {
        raw
    };
    ((c * 255 + 32768) / 65536) as u8
}

/// Whether `after` is `before` with the triangle drawn over it: every pixel
/// that the triangle covers holds the packed colour that `color` gives for
/// it, and every other pixel is as it was.
pub open spec fn drawn(
    before: &Frame,
    after: &Frame,
    p0: Vec2,
    p1: Vec2,
    p2: Vec2,
    color: spec_fn(int, int) -> Color,
) -> bool {
    &&& after.spec_width() == before.spec_width()
    &&& after.spec_height() == before.spec_height()
    &&& forall|x: int, y: int|
        before.in_bounds(x, y) ==> #[trigger] after.pixel_at(x, y) == (if covered(
            p0,
            p1,
            p2,
            x,
            y,
        ) {
            color(x, y).packed()
        } else {
            before.pixel_at(x, y)
        })
}

/// The colour of a pixel under vertex-colour shading: each channel is the
/// blend of the three vertex channels, as a byte; alpha is opaque.
pub open spec fn mixed_color(
    c0: [Fixed; 3],
    c1: [Fixed; 3],
    c2: [Fixed; 3],
    w0: int,
    w1: int,
    w2: int,
    area: int,
) -> Color {
    Color {
        r: quantize(
            blend(w0, w1, w2, area, c0[0].raw as int, c1[0].raw as int, c2[0].raw as int),
        ) as u8,
        g: quantize(
            blend(w0, w1, w2, area, c0[1].raw as int, c1[1].raw as int, c2[1].raw as int),
        ) as u8,
        b: quantize(
            blend(w0, w1, w2, area, c0[2].raw as int, c1[2].raw as int, c2[2].raw as int),
        ) as u8,
        a: 255,
    }
}

/// The colour that vertex-colour shading gives pixel `(x, y)`.
pub open spec fn vertex_color_at(v0: Vertex, v1: Vertex, v2: Vertex, x: int, y: int) -> Color {
    mixed_color(
        v0.color,
        v1.color,
        v2.color,
        weight0(v0.xy(), v1.xy(), v2.xy(), x, y),
        weight1(v0.xy(), v1.xy(), v2.xy(), x, y),
        weight2(v0.xy(), v1.xy(), v2.xy(), x, y),
        abs_area(v0.xy(), v1.xy(), v2.xy()),
    )
}

/// The colour that texturing gives for the given weights: the texture's
/// nearest sample at the blended texture coordinate.
pub open spec fn sampled_color(
    tex: &Texture,
    uv0: Vec2,
    uv1: Vec2,
    uv2: Vec2,
    w0: int,
    w1: int,
    w2: int,
    area: int,
) -> Color {
    tex.sample(
        blend(w0, w1, w2, area, uv0.x.raw as int, uv1.x.raw as int, uv2.x.raw as int),
        blend(w0, w1, w2, area, uv0.y.raw as int, uv1.y.raw as int, uv2.y.raw as int),
    )
}

/// The colour that texturing gives pixel `(x, y)`.
pub open spec fn textured_at(
    tex: &Texture,
    v0: Vertex,
    v1: Vertex,
    v2: Vertex,
    x: int,
    y: int,
) -> Color {
    sampled_color(
        tex,
        v0.uv,
        v1.uv,
        v2.uv,
        weight0(v0.xy(), v1.xy(), v2.xy(), x, y),
        weight1(v0.xy(), v1.xy(), v2.xy(), x, y),
        weight2(v0.xy(), v1.xy(), v2.xy(), x, y),
        abs_area(v0.xy(), v1.xy(), v2.xy()),
    )
}

/// Shading with one colour for every covered pixel.
struct SolidShader {
    color: Color,
}

impl Shader for SolidShader {
    spec fn color_for(&self, x: int, y: int, w0: int, w1: int, w2: int, area: int) -> Color {
        self.color
    }

    fn shade(&self, x: i32, y: i32, w0: i128, w1: i128, w2: i128, area: i128) -> (c: Color) {
        self.color
    }
}

/// Shading by the blend of the three vertex colours.
struct VertexColorShader {
    c0: [Fixed; 3],
    c1: [Fixed; 3],
    c2: [Fixed; 3],
}

impl Shader for VertexColorShader {
    spec fn color_for(&self, x: int, y: int, w0: int, w1: int, w2: int, area: int) -> Color {
        mixed_color(self.c0, self.c1, self.c2, w0, w1, w2, area)
    }

    fn shade(&self, x: i32, y: i32, w0: i128, w1: i128, w2: i128, area: i128) -> (c: Color) {
        let r = interpolate(w0, w1, w2, area, self.c0[0].raw, self.c1[0].raw, self.c2[0].raw);
        let g = interpolate(w0, w1, w2, area, self.c0[1].raw, self.c1[1].raw, self.c2[1].raw);
        let b = interpolate(w0, w1, w2, area, self.c0[2].raw, self.c1[2].raw, self.c2[2].raw);
        Color { r: quantize_channel(r), g: quantize_channel(g), b: quantize_channel(b), a: 255 }
    }
}

/// Shading by the texture's nearest sample at the blended coordinate.
struct TexturedShader<'a> {
    uv0: Vec2,
    uv1: Vec2,
    uv2: Vec2,
    tex: &'a Texture,
}

impl<'a> Shader for TexturedShader<'a> {
    spec fn color_for(&self, x: int, y: int, w0: int, w1: int, w2: int, area: int) -> Color {
        sampled_color(self.tex, self.uv0, self.uv1, self.uv2, w0, w1, w2, area)
    }

    fn shade(&self, x: i32, y: i32, w0: i128, w1: i128, w2: i128, area: i128) -> (c: Color) {
        let u = interpolate(w0, w1, w2, area, self.uv0.x.raw, self.uv1.x.raw, self.uv2.x.raw);
        let v = interpolate(w0, w1, w2, area, self.uv0.y.raw, self.uv1.y.raw, self.uv2.y.raw);
        self.tex.sample_nearest(Vec2 { x: Fixed { raw: u }, y: Fixed { raw: v } })
    }
}

/// Draws the triangle in one colour.
///
/// The triangle may be given in either winding. A degenerate triangle, and
/// one outside the frame, leave the frame as it is.
pub fn draw_triangle_solid(frame: &mut Frame, v0: Vertex, v1: Vertex, v2: Vertex, color: Color)
    ensures
        drawn(old(frame), final(frame), v0.xy(), v1.xy(), v2.xy(), |x: int, y: int| color),
{
    let shader = SolidShader { color };
    raster_core(frame, v0, v1, v2, &shader);
}

/// Draws the triangle with the colours of its vertices blended over it.
pub fn draw_triangle_vertex_color(frame: &mut Frame, v0: Vertex, v1: Vertex, v2: Vertex)
    ensures
        drawn(
            old(frame),
            final(frame),
            v0.xy(),
            v1.xy(),
            v2.xy(),
            |x: int, y: int| vertex_color_at(v0, v1, v2, x, y),
        ),
{
    let shader = VertexColorShader { c0: v0.color, c1: v1.color, c2: v2.color };
    raster_core(frame, v0, v1, v2, &shader);
}

/// Draws the triangle with the texture mapped over it by the texture
/// coordinates of its vertices, sampled to the nearest texel.
pub fn draw_triangle_textured(
    frame: &mut Frame,
    v0: Vertex,
    v1: Vertex,
    v2: Vertex,
    tex: &Texture,
)
    ensures
        drawn(
            old(frame),
            final(frame),
            v0.xy(),
            v1.xy(),
            v2.xy(),
            |x: int, y: int| textured_at(tex, v0, v1, v2, x, y),
        ),
{
    let shader = TexturedShader { uv0: v0.uv, uv1: v1.uv, uv2: v2.uv, tex };
    raster_core(frame, v0, v1, v2, &shader);
}

} // verus!
