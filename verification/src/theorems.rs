//! What holds of the rasterizer for every triangle.
use vstd::prelude::*;
use crate::fixed::{Fixed, Vec2};
use crate::frame::Frame;
use crate::pix::Color;
use crate::raster::{
    abs_area, center, covered, degenerate, drawn, inside, lemma_blend_constant,
    lemma_covered_in_bbox, lemma_covered_weights, orientation, passes, quantize, valid_weights,
    vertex_color_at, weight0, weight1, weight2, Vertex,
};
use crate::setup::{bbox, edge, edge_raw, lemma_edge_bound, top_left};

verus! {

/// Two frames drawn from one frame by triangles that cover the same pixels,
/// with the same colours on them, are equal.
pub proof fn lemma_drawn_alike(
    before: &Frame,
    a1: &Frame,
    a2: &Frame,
    p0: Vec2,
    p1: Vec2,
    p2: Vec2,
    c1: spec_fn(int, int) -> Color,
    q0: Vec2,
    q1: Vec2,
    q2: Vec2,
    c2: spec_fn(int, int) -> Color,
)
    requires
        drawn(before, a1, p0, p1, p2, c1),
        drawn(before, a2, q0, q1, q2, c2),
        forall|x: int, y: int|
            before.in_bounds(x, y) ==> #[trigger] covered(p0, p1, p2, x, y) == covered(
                q0,
                q1,
                q2,
                x,
                y,
            ),
        forall|x: int, y: int|
            before.in_bounds(x, y) && #[trigger] covered(p0, p1, p2, x, y) ==> c1(x, y) == c2(x, y),
    ensures
        a1.spec_width() == a2.spec_width(),
        a1.spec_height() == a2.spec_height(),
        a1@ == a2@,
{
    assert forall|x: int, y: int| a1.in_bounds(x, y) implies #[trigger] a1.pixel_at(x, y)
        == a2.pixel_at(x, y) by {
        assert(before.in_bounds(x, y));
        assert(covered(p0, p1, p2, x, y) == covered(q0, q1, q2, x, y));
    }
    a1.lemma_same_pixels(a2);
}

/// Degenerate skip: a triangle whose doubled area is within the tolerance
/// covers no pixel, so drawing it leaves the frame as it was.
pub proof fn lemma_degenerate_paints_nothing(
    before: &Frame,
    after: &Frame,
    p0: Vec2,
    p1: Vec2,
    p2: Vec2,
    color: spec_fn(int, int) -> Color,
)
    requires
        degenerate(p0, p1, p2),
        drawn(before, after, p0, p1, p2, color),
    ensures
        forall|x: int, y: int| !covered(p0, p1, p2, x, y),
        after@ == before@,
{
    assert forall|x: int, y: int| after.in_bounds(x, y) implies #[trigger] after.pixel_at(x, y)
        == before.pixel_at(x, y) by {
        assert(before.in_bounds(x, y));
    }
    after.lemma_same_pixels(before);
}

/// Out-of-view skip: a triangle whose pixel range misses the frame covers
/// no pixel of it, so drawing it leaves the frame as it was.
pub proof fn lemma_out_of_view_paints_nothing(
    before: &Frame,
    after: &Frame,
    p0: Vec2,
    p1: Vec2,
    p2: Vec2,
    color: spec_fn(int, int) -> Color,
)
    requires
        ({
            let r = bbox(p0, p1, p2, before.spec_width() as int, before.spec_height() as int);
            r.0 > r.2 || r.1 > r.3
        }),
        drawn(before, after, p0, p1, p2, color),
    ensures
        forall|x: int, y: int| before.in_bounds(x, y) ==> !covered(p0, p1, p2, x, y),
        after@ == before@,
{
    let w = before.spec_width() as int;
    let h = before.spec_height() as int;
    assert forall|x: int, y: int| before.in_bounds(x, y) implies !covered(p0, p1, p2, x, y) by {
        if covered(p0, p1, p2, x, y) {
            lemma_covered_in_bbox(p0, p1, p2, w, h, x, y);
        }
    }
    assert forall|x: int, y: int| after.in_bounds(x, y) implies #[trigger] after.pixel_at(x, y)
        == before.pixel_at(x, y) by {
        assert(before.in_bounds(x, y));
    }
    after.lemma_same_pixels(before);
}

/// Single-pixel triangle: when the pixel range in the frame of a triangle
/// that is not degenerate is the one pixel `(x, y)`, drawing it paints that
/// pixel if its centre passes the inside test, and paints nothing
/// otherwise.
pub proof fn lemma_single_pixel(
    before: &Frame,
    after: &Frame,
    p0: Vec2,
    p1: Vec2,
    p2: Vec2,
    color: spec_fn(int, int) -> Color,
    x: int,
    y: int,
)
    requires
        !degenerate(p0, p1, p2),
        bbox(p0, p1, p2, before.spec_width() as int, before.spec_height() as int) == (x, y, x, y),
        drawn(before, after, p0, p1, p2, color),
    ensures
        before.in_bounds(x, y),
        forall|px: int, py: int|
            before.in_bounds(px, py) && !(px == x && py == y) ==> #[trigger] after.pixel_at(px, py)
                == before.pixel_at(px, py),
        after.pixel_at(x, y) == (if inside(p0, p1, p2, x, y) {
            color(x, y).packed()
        } else {
            before.pixel_at(x, y)
        }),
        !inside(p0, p1, p2, x, y) ==> after@ == before@,
{
    let w = before.spec_width() as int;
    let h = before.spec_height() as int;
    assert forall|px: int, py: int|
        before.in_bounds(px, py) && !(px == x && py == y) implies #[trigger] after.pixel_at(px, py)
        == before.pixel_at(px, py) by {
        if covered(p0, p1, p2, px, py) {
            lemma_covered_in_bbox(p0, p1, p2, w, h, px, py);
        }
    }
    if !inside(p0, p1, p2, x, y) {
        assert forall|px: int, py: int| after.in_bounds(px, py) implies #[trigger] after.pixel_at(
            px,
            py,
        ) == before.pixel_at(px, py) by {
            assert(before.in_bounds(px, py));
        }
        after.lemma_same_pixels(before);
    }
}

/// Turning an edge round negates its edge values.
pub proof fn lemma_edge_reversed(a: Vec2, b: Vec2, px: int, py: int)
    ensures
        edge_raw(b, a, px, py) == -edge_raw(a, b, px, py),
{
    let abx = b.x.raw - a.x.raw;
    let aby = b.y.raw - a.y.raw;
    let apx = px - a.x.raw;
    let apy = py - a.y.raw;
    assert(a.x.raw - b.x.raw == -abx);
    assert(a.y.raw - b.y.raw == -aby);
    assert(py - b.y.raw == apy - aby);
    assert(px - b.x.raw == apx - abx);
    assert((-abx) * (apy - aby) - (-aby) * (apx - abx) == -(abx * apy - aby * apx))
        by (nonlinear_arith);
}

/// Swapping two corners negates the doubled area.
pub proof fn lemma_area_reversed(p0: Vec2, p1: Vec2, p2: Vec2)
    ensures
        edge(p0, p2, p1) == -edge(p0, p1, p2),
{
    let ax = p1.x.raw - p0.x.raw;
    let ay = p1.y.raw - p0.y.raw;
    let bx = p2.x.raw - p0.x.raw;
    let by = p2.y.raw - p0.y.raw;
    assert(bx * ay - by * ax == -(ax * by - ay * bx)) by (nonlinear_arith);
}

/// Whether the centre of pixel `(x, y)` lies on the outline of the
/// triangle: no weight is negative, and one is zero.
pub open spec fn on_outline(p0: Vec2, p1: Vec2, p2: Vec2, x: int, y: int) -> bool {
    &&& weight0(p0, p1, p2, x, y) >= 0
    &&& weight1(p0, p1, p2, x, y) >= 0
    &&& weight2(p0, p1, p2, x, y) >= 0
    &&& (weight0(p0, p1, p2, x, y) == 0 || weight1(p0, p1, p2, x, y) == 0 || weight2(
        p0,
        p1,
        p2,
        x,
        y,
    ) == 0)
}

/// Winding independence: a pixel whose centre does not lie on the outline
/// of the triangle is covered by the triangle exactly when it is covered by
/// the same triangle given in the other winding, and with the same weight
/// for each corner where the triangle has an area. (Of a pixel on the outline the tie-break decides by the
/// direction of the edges, which the other winding turns round: see
/// `lemma_windings_split_edges`.)
pub proof fn lemma_winding_independent(p0: Vec2, p1: Vec2, p2: Vec2, x: int, y: int)
    requires
        degenerate(p0, p1, p2) || !on_outline(p0, p1, p2, x, y),
    ensures
        covered(p0, p1, p2, x, y) == covered(p0, p2, p1, x, y),
        abs_area(p0, p1, p2) == abs_area(p0, p2, p1),
        edge(p0, p1, p2) != 0 ==> {
            &&& weight0(p0, p1, p2, x, y) == weight0(p0, p2, p1, x, y)
            &&& weight1(p0, p1, p2, x, y) == weight2(p0, p2, p1, x, y)
            &&& weight2(p0, p1, p2, x, y) == weight1(p0, p2, p1, x, y)
        },
{
    let cx = center(x);
    let cy = center(y);
    lemma_area_reversed(p0, p1, p2);
    lemma_edge_reversed(p1, p2, cx, cy);
    lemma_edge_reversed(p2, p0, cx, cy);
    lemma_edge_reversed(p0, p1, cx, cy);
    let s = orientation(p0, p1, p2);
    let t = orientation(p0, p2, p1);
    let e0 = edge_raw(p1, p2, cx, cy);
    let e1 = edge_raw(p2, p0, cx, cy);
    let e2 = edge_raw(p0, p1, cx, cy);
    lemma_negations_cancel(s, edge(p0, p1, p2));
    if edge(p0, p1, p2) != 0 {
        assert(t == -s);
        lemma_negations_cancel(s, e0);
        lemma_negations_cancel(s, e1);
        lemma_negations_cancel(s, e2);
    }
}

/// The doubled area does not change when the corners are passed on by one
/// place.
pub proof fn lemma_area_rotated(p0: Vec2, p1: Vec2, p2: Vec2)
    ensures
        edge(p1, p2, p0) == edge(p0, p1, p2),
{
    let ax = p1.x.raw - p0.x.raw;
    let ay = p1.y.raw - p0.y.raw;
    let bx = p2.x.raw - p0.x.raw;
    let by = p2.y.raw - p0.y.raw;
    assert(p2.x.raw - p1.x.raw == bx - ax);
    assert(p2.y.raw - p1.y.raw == by - ay);
    assert(p0.x.raw - p1.x.raw == -ax);
    assert(p0.y.raw - p1.y.raw == -ay);
    assert((bx - ax) * (-ay) - (by - ay) * (-ax) == ax * by - ay * bx) by (nonlinear_arith);
}

/// Rotation independence: a triangle covers the same pixels, with the same
/// weight for each corner, whichever corner is named first.
pub proof fn lemma_rotation_independent(p0: Vec2, p1: Vec2, p2: Vec2, x: int, y: int)
    ensures
        covered(p1, p2, p0, x, y) == covered(p0, p1, p2, x, y),
        weight0(p1, p2, p0, x, y) == weight1(p0, p1, p2, x, y),
        weight1(p1, p2, p0, x, y) == weight2(p0, p1, p2, x, y),
        weight2(p1, p2, p0, x, y) == weight0(p0, p1, p2, x, y),
        abs_area(p1, p2, p0) == abs_area(p0, p1, p2),
{
    lemma_area_rotated(p0, p1, p2);
}

/// No double paint on a pixel of an edge: of a triangle and the same
/// triangle in the other winding, at most one covers a pixel whose centre
/// lies on an edge line.
pub proof fn lemma_windings_split_edges(p0: Vec2, p1: Vec2, p2: Vec2, x: int, y: int)
    requires
        edge_raw(p1, p2, center(x), center(y)) == 0 || edge_raw(p2, p0, center(x), center(y)) == 0
            || edge_raw(p0, p1, center(x), center(y)) == 0,
    ensures
        !(covered(p0, p1, p2, x, y) && covered(p0, p2, p1, x, y)),
{
    let cx = center(x);
    let cy = center(y);
    lemma_area_reversed(p0, p1, p2);
    lemma_edge_reversed(p1, p2, cx, cy);
    lemma_edge_reversed(p2, p0, cx, cy);
    lemma_edge_reversed(p0, p1, cx, cy);
    let s = orientation(p0, p1, p2);
    if !degenerate(p0, p1, p2) {
        lemma_negations_cancel(s, edge_raw(p1, p2, cx, cy));
        lemma_negations_cancel(s, edge_raw(p2, p0, cx, cy));
        lemma_negations_cancel(s, edge_raw(p0, p1, cx, cy));
        lemma_zero_product(s, edge_raw(p1, p2, cx, cy));
        lemma_zero_product(s, edge_raw(p2, p0, cx, cy));
        lemma_zero_product(s, edge_raw(p0, p1, cx, cy));
        if covered(p0, p1, p2, x, y) && covered(p0, p2, p1, x, y) {
            lemma_covered_weights(p0, p1, p2, x, y);
            lemma_one_direction(p1, p2);
            lemma_one_direction(p2, p0);
            lemma_one_direction(p0, p1);
        }
    }
}

/// A sign times zero is zero.
proof fn lemma_zero_product(s: int, e: int)
    ensures
        e == 0 ==> s * e == 0,
{
    assert(e == 0 ==> s * e == 0) by (nonlinear_arith);
}

/// Of an edge and the same edge turned round, at most one is a top or a
/// left edge; exactly one unless its ends coincide.
pub proof fn lemma_one_direction(a: Vec2, b: Vec2)
    ensures
        !(top_left(a, b) && top_left(b, a)),
        a != b ==> top_left(a, b) || top_left(b, a),
{
    if a.x.raw == b.x.raw && a.y.raw == b.y.raw {
        assert(a.x == b.x);
        assert(a.y == b.y);
    }
}

/// Watertight tiling along a shared edge. Let two triangles of the same
/// winding, `(a, b, c)` and `(a, c, d)`, share the edge between `a` and `c`.
/// No pixel is covered by both. A pixel whose centre passes the inside test
/// of the other two edges of each triangle is covered by exactly one of
/// them: the shared edge leaves no gap.
pub proof fn lemma_shared_edge_watertight(
    a: Vec2,
    b: Vec2,
    c: Vec2,
    d: Vec2,
    x: int,
    y: int,
)
    requires
        !degenerate(a, b, c),
        !degenerate(a, c, d),
        orientation(a, b, c) == orientation(a, c, d),
    ensures
        !(covered(a, b, c, x, y) && covered(a, c, d, x, y)),
        ({
            &&& passes(top_left(b, c), weight0(a, b, c, x, y))
            &&& passes(top_left(a, b), weight2(a, b, c, x, y))
            &&& passes(top_left(c, d), weight0(a, c, d, x, y))
            &&& passes(top_left(d, a), weight1(a, c, d, x, y))
        }) ==> (covered(a, b, c, x, y) || covered(a, c, d, x, y)),
{
    let cx = center(x);
    let cy = center(y);
    let s = orientation(a, b, c);
    let e = edge_raw(c, a, cx, cy);
    lemma_edge_reversed(c, a, cx, cy);
    lemma_negations_cancel(s, e);
    lemma_zero_product(s, e);
    lemma_opposite(s, e);
    lemma_one_direction(c, a);
    if c == a {
        assert(edge(a, b, c) == 0) by {
            assert((b.x.raw - a.x.raw) * (c.y.raw - a.y.raw) == 0) by (nonlinear_arith)
                requires
                    c.y.raw - a.y.raw == 0,
            ;
            assert((b.y.raw - a.y.raw) * (c.x.raw - a.x.raw) == 0) by (nonlinear_arith)
                requires
                    c.x.raw - a.x.raw == 0,
            ;
        }
    }
}

/// A sign times a number and the sign times its negation are opposite.
proof fn lemma_opposite(s: int, e: int)
    ensures
        s * (-e) == -(s * e),
{
    assert(s * (-e) == -(s * e)) by (nonlinear_arith);
}

/// Two negations cancel in a product.
proof fn lemma_negations_cancel(s: int, e: int)
    ensures
        (-s) * (-e) == s * e,
{
    assert((-s) * (-e) == s * e) by (nonlinear_arith);
}

/// Winding independence of a whole frame: when no pixel centre of the frame
/// lies on the outline of the triangle, drawing the triangle in either
/// winding, with colours that agree on the covered pixels, gives the same
/// frame.
pub proof fn lemma_winding_independent_frame(
    before: &Frame,
    a1: &Frame,
    a2: &Frame,
    p0: Vec2,
    p1: Vec2,
    p2: Vec2,
    c1: spec_fn(int, int) -> Color,
    c2: spec_fn(int, int) -> Color,
)
    requires
        forall|x: int, y: int| before.in_bounds(x, y) ==> !#[trigger] on_outline(p0, p1, p2, x, y),
        drawn(before, a1, p0, p1, p2, c1),
        drawn(before, a2, p0, p2, p1, c2),
        forall|x: int, y: int|
            before.in_bounds(x, y) && #[trigger] covered(p0, p1, p2, x, y) ==> c1(x, y) == c2(x, y),
    ensures
        a1@ == a2@,
{
    assert forall|x: int, y: int| before.in_bounds(x, y) implies #[trigger] covered(
        p0,
        p1,
        p2,
        x,
        y,
    ) == covered(p0, p2, p1, x, y) by {
        assert(!on_outline(p0, p1, p2, x, y));
        lemma_winding_independent(p0, p1, p2, x, y);
    }
    lemma_drawn_alike(before, a1, a2, p0, p1, p2, c1, p0, p2, p1, c2);
}

/// The colour whose channels are the bytes of three raw channels; alpha is
/// opaque.
pub open spec fn quantized_color(c: [Fixed; 3]) -> Color {
    Color {
        r: quantize(c[0].raw as int) as u8,
        g: quantize(c[1].raw as int) as u8,
        b: quantize(c[2].raw as int) as u8,
        a: 255,
    }
}

/// With the same colour at all three vertices, vertex-colour shading gives
/// every covered pixel that colour's bytes.
pub proof fn lemma_vertex_color_constant(v0: Vertex, v1: Vertex, v2: Vertex, x: int, y: int)
    requires
        covered(v0.xy(), v1.xy(), v2.xy(), x, y),
        v1.color == v0.color,
        v2.color == v0.color,
    ensures
        vertex_color_at(v0, v1, v2, x, y) == quantized_color(v0.color),
{
    let p0 = v0.xy();
    let p1 = v1.xy();
    let p2 = v2.xy();
    lemma_covered_weights(p0, p1, p2, x, y);
    let w0 = weight0(p0, p1, p2, x, y);
    let w1 = weight1(p0, p1, p2, x, y);
    let w2 = weight2(p0, p1, p2, x, y);
    let area = abs_area(p0, p1, p2);
    lemma_edge_bound(p0, p1, p2.x.raw as int, p2.y.raw as int);
    assert(valid_weights(w0, w1, w2, area));
    lemma_blend_constant(w0, w1, w2, area, v0.color[0].raw as int);
    lemma_blend_constant(w0, w1, w2, area, v0.color[1].raw as int);
    lemma_blend_constant(w0, w1, w2, area, v0.color[2].raw as int);
}

/// Vertex-colour and solid shading agree: with the same colour at all three
/// vertices, drawing with vertex colours gives the frame that drawing in the
/// one colour of those bytes gives.
pub proof fn lemma_vertex_color_matches_solid(
    before: &Frame,
    a1: &Frame,
    a2: &Frame,
    v0: Vertex,
    v1: Vertex,
    v2: Vertex,
)
    requires
        v1.color == v0.color,
        v2.color == v0.color,
        drawn(
            before,
            a1,
            v0.xy(),
            v1.xy(),
            v2.xy(),
            |x: int, y: int| vertex_color_at(v0, v1, v2, x, y),
        ),
        drawn(
            before,
            a2,
            v0.xy(),
            v1.xy(),
            v2.xy(),
            |x: int, y: int| quantized_color(v0.color),
        ),
    ensures
        a1@ == a2@,
{
    let c1 = |x: int, y: int| vertex_color_at(v0, v1, v2, x, y);
    let c2 = |x: int, y: int| quantized_color(v0.color);
    let p0 = v0.xy();
    let p1 = v1.xy();
    let p2 = v2.xy();
    assert forall|x: int, y: int| before.in_bounds(x, y) && #[trigger] covered(
        p0,
        p1,
        p2,
        x,
        y,
    ) implies c1(x, y) == c2(x, y) by {
        lemma_vertex_color_constant(v0, v1, v2, x, y);
    }
    lemma_drawn_alike(before, a1, a2, p0, p1, p2, c1, p0, p1, p2, c2);
}

} // verus!
