//! Drawing on a surface: single pixels, lines, rectangles and circles. What
//! falls outside the surface is cut off.
use vstd::prelude::*;
use crate::arith::lemma_div_between;
use crate::pix::{Color, Surface};
use vstd::arithmetic::div_mod::{lemma_fundamental_div_mod, lemma_mod_bound};

verus! {

/// Whether `after` is `before` with the colour written to every pixel that
/// `on` holds of, and to no other.
pub open spec fn painted(
    before: &Surface,
    after: &Surface,
    on: spec_fn(int, int) -> bool,
    color: Color,
) -> bool {
    &&& after.spec_width() == before.spec_width()
    &&& after.spec_height() == before.spec_height()
    &&& forall|x: int, y: int|
        before.in_bounds(x, y) ==> #[trigger] after.pixel_at(x, y) == (if on(x, y) {
            color.packed()
        } else {
            before.pixel_at(x, y)
        })
}

/// Painting twice in one colour paints the pixels of both.
pub proof fn lemma_painted_twice(
    a: &Surface,
    b: &Surface,
    c: &Surface,
    on1: spec_fn(int, int) -> bool,
    on2: spec_fn(int, int) -> bool,
    on: spec_fn(int, int) -> bool,
    color: Color,
)
    requires
        painted(a, b, on1, color),
        painted(b, c, on2, color),
        forall|x: int, y: int| a.in_bounds(x, y) ==> #[trigger] on(x, y) == (on1(x, y) || on2(x, y)),
    ensures
        painted(a, c, on, color),
{
    assert forall|x: int, y: int| a.in_bounds(x, y) implies #[trigger] c.pixel_at(x, y) == (if on(
        x,
        y,
    ) {
        color.packed()
    } else {
        a.pixel_at(x, y)
    }) by {
        assert(b.in_bounds(x, y));
        assert(b.pixel_at(x, y) == (if on1(x, y) {
            color.packed()
        } else {
            a.pixel_at(x, y)
        }));
        assert(on(x, y) == (on1(x, y) || on2(x, y)));
    }
}

/// A surface is itself with nothing painted.
pub proof fn lemma_painted_nothing(a: &Surface, on: spec_fn(int, int) -> bool, color: Color)
    requires
        forall|x: int, y: int| a.in_bounds(x, y) ==> !#[trigger] on(x, y),
    ensures
        painted(a, a, on, color),
{
    assert forall|x: int, y: int| a.in_bounds(x, y) implies #[trigger] a.pixel_at(x, y) == (if on(
        x,
        y,
    ) {
        color.packed()
    } else {
        a.pixel_at(x, y)
    }) by {
        assert(!on(x, y));
    }
}

/// Writing one pixel paints that pixel.
pub proof fn lemma_painted_one(
    a: &Surface,
    b: &Surface,
    x: int,
    y: int,
    on: spec_fn(int, int) -> bool,
    color: Color,
)
    requires
        a.in_bounds(x, y) ==> b.is_update_of(a, x, y, color.packed()),
        !a.in_bounds(x, y) ==> *b == *a,
        forall|px: int, py: int|
            a.in_bounds(px, py) ==> #[trigger] on(px, py) == (px == x && py == y),
    ensures
        painted(a, b, on, color),
{
    assert forall|px: int, py: int| a.in_bounds(px, py) implies #[trigger] b.pixel_at(px, py) == (
    if on(px, py) {
        color.packed()
    } else {
        a.pixel_at(px, py)
    }) by {
        assert(on(px, py) == (px == x && py == y));
        if a.in_bounds(x, y) {
            b.lemma_update_reads(a, x, y, color.packed(), px, py);
        }
    }
}

/// Fills the whole surface with one colour.
pub fn clear(surface: &mut Surface, color: Color)
    ensures
        final(surface).spec_width() == old(surface).spec_width(),
        final(surface).spec_height() == old(surface).spec_height(),
        final(surface)@ == Seq::new(old(surface)@.len(), |i: int| color.packed()),
{
    surface.clear(color);
}

/// Writes one pixel; a position outside the surface is ignored.
pub fn set_pixel(surface: &mut Surface, x: i32, y: i32, color: Color)
    ensures
        painted(old(surface), final(surface), |px: int, py: int| px == x && py == y, color),
{
    surface.set_pixel(x, y, color);
    proof {
        lemma_painted_one(
            old(surface),
            surface,
            x as int,
            y as int,
            |px: int, py: int| px == x && py == y,
            color,
        );
    }
}

/// Writes the pixel `(x, y)`, if the surface has it.
fn plot(surface: &mut Surface, x: i64, y: i64, color: Color)
    ensures
        painted(old(surface), final(surface), |px: int, py: int| px == x && py == y, color),
{
    surface.set_pixel_wide(x, y, color);
    proof {
        lemma_painted_one(
            old(surface),
            surface,
            x as int,
            y as int,
            |px: int, py: int| px == x && py == y,
            color,
        );
    }
}

/// The lower end of the span that starts at `a` and is `len` long, where a
/// negative length runs backwards.
pub open spec fn span_lo(a: int, len: int) -> int {
    if len >= 0 {
        a
    } else {
        a + len
    }
}

/// The upper end (not included) of the span that starts at `a` and is `len`
/// long.
pub open spec fn span_hi(a: int, len: int) -> int {
    if len >= 0 {
        a + len
    } else {
        a
    }
}

/// Whether `(px, py)` lies in the rectangle with a corner at `(x, y)` and
/// the sizes `w` and `h`, either of which may be negative: the half-open
/// region from the lower to the upper ends of its spans.
pub open spec fn in_rect(x: int, y: int, w: int, h: int, px: int, py: int) -> bool {
    span_lo(x, w) <= px < span_hi(x, w) && span_lo(y, h) <= py < span_hi(y, h)
}

/// Whether `(px, py)` lies on the outline of that rectangle: in it, and in
/// its first or last column or row.
pub open spec fn on_rect_outline(x: int, y: int, w: int, h: int, px: int, py: int) -> bool {
    in_rect(x, y, w, h, px, py) && (px == span_lo(x, w) || px == span_hi(x, w) - 1 || py == span_lo(
        y,
        h,
    ) || py == span_hi(y, h) - 1)
}

/// `v` held between `0` and `size`.
fn clip(v: i64, size: usize) -> (c: i64)
    requires
        -0x1_0000_0000 <= v <= 0x1_0000_0000,
    ensures
        0 <= c <= 0x1_0000_0000,
        c == (if v < 0 {
            0
        } else if v > size {
            size as int
        } else {
            v as int
        }),
{
    if v < 0 {
        0
    } else if v as u64 > size as u64 {
        size as i64
    } else {
        v
    }
}

/// Paints the pixels of row `y` from column `xs` up to, not including,
/// column `xe`.
fn fill_row(surface: &mut Surface, y: i64, xs: i64, xe: i64, color: Color)
    requires
        -0x1_0000_0000 <= xs <= 0x1_0000_0000,
        -0x1_0000_0000 <= xe <= 0x1_0000_0000,
    ensures
        painted(
            old(surface),
            final(surface),
            |px: int, py: int| py == y && xs <= px < xe,
            color,
        ),
{
    let first = clip(xs, surface.width());
    let last = clip(xe, surface.width());
    let mut x = first;
    proof {
        lemma_painted_nothing(
            old(surface),
            |px: int, py: int| py == y && xs <= px < xe && px < first,
            color,
        );
    }
    while x < last
        invariant
            first <= x <= 0x1_0000_0000,
            last <= 0x1_0000_0000,
            first == (if xs < 0 {
                0
            } else if xs > old(surface).spec_width() {
                old(surface).spec_width() as int
            } else {
                xs as int
            }),
            last == (if xe < 0 {
                0
            } else if xe > old(surface).spec_width() {
                old(surface).spec_width() as int
            } else {
                xe as int
            }),
            painted(
                old(surface),
                surface,
                |px: int, py: int| py == y && xs <= px < xe && px < x,
                color,
            ),
        decreases last - x,
    {
        let ghost prev = *surface;
        plot(surface, x, y, color);
        proof {
            lemma_painted_twice(
                old(surface),
                &prev,
                surface,
                |px: int, py: int| py == y && xs <= px < xe && px < x,
                |px: int, py: int| px == x && py == y,
                |px: int, py: int| py == y && xs <= px < xe && px < x + 1,
                color,
            );
        }
        x += 1;
    }
    proof {
        let done = |px: int, py: int| py == y && xs <= px < xe && px < x;
        let all = |px: int, py: int| py == y && xs <= px < xe;
        lemma_painted_nothing(surface, |px: int, py: int| false, color);
        lemma_painted_twice(
            old(surface),
            surface,
            surface,
            done,
            |px: int, py: int| false,
            all,
            color,
        );
    }
}

/// Fills a rectangle. `(x, y)` is a corner; `w` and `h` may be negative.
/// All pixels of the half-open region between the ends of the two spans are
/// painted, as far as the surface has them.
pub fn fill_rect(surface: &mut Surface, x: i32, y: i32, w: i32, h: i32, color: Color)
    ensures
        painted(
            old(surface),
            final(surface),
            |px: int, py: int| in_rect(x as int, y as int, w as int, h as int, px, py),
            color,
        ),
{
    let x0: i64 = if w >= 0 {
        x as i64
    } else {
        x as i64 + w as i64
    };
    let x1: i64 = if w >= 0 {
        x as i64 + w as i64
    } else {
        x as i64
    };
    let y0: i64 = if h >= 0 {
        y as i64
    } else {
        y as i64 + h as i64
    };
    let y1: i64 = if h >= 0 {
        y as i64 + h as i64
    } else {
        y as i64
    };
    let first = clip(y0, surface.height());
    let last = clip(y1, surface.height());
    let mut yy = first;
    proof {
        lemma_painted_nothing(
            old(surface),
            |px: int, py: int|
                in_rect(x as int, y as int, w as int, h as int, px, py) && py < first,
            color,
        );
    }
    while yy < last
        invariant
            first <= yy <= 0x1_0000_0000,
            last <= 0x1_0000_0000,
            x0 == span_lo(x as int, w as int),
            x1 == span_hi(x as int, w as int),
            y0 == span_lo(y as int, h as int),
            y1 == span_hi(y as int, h as int),
            first == (if y0 < 0 {
                0
            } else if y0 > old(surface).spec_height() {
                old(surface).spec_height() as int
            } else {
                y0 as int
            }),
            last == (if y1 < 0 {
                0
            } else if y1 > old(surface).spec_height() {
                old(surface).spec_height() as int
            } else {
                y1 as int
            }),
            painted(
                old(surface),
                surface,
                |px: int, py: int|
                    in_rect(x as int, y as int, w as int, h as int, px, py) && py < yy,
                color,
            ),
        decreases last - yy,
    {
        let ghost prev = *surface;
        fill_row(surface, yy, x0, x1, color);
        proof {
            lemma_painted_twice(
                old(surface),
                &prev,
                surface,
                |px: int, py: int|
                    in_rect(x as int, y as int, w as int, h as int, px, py) && py < yy,
                |px: int, py: int| py == yy && x0 <= px < x1,
                |px: int, py: int|
                    in_rect(x as int, y as int, w as int, h as int, px, py) && py < yy + 1,
                color,
            );
        }
        yy += 1;
    }
    proof {
        lemma_painted_nothing(surface, |px: int, py: int| false, color);
        lemma_painted_twice(
            old(surface),
            surface,
            surface,
            |px: int, py: int|
                in_rect(x as int, y as int, w as int, h as int, px, py) && py < yy,
            |px: int, py: int| false,
            |px: int, py: int| in_rect(x as int, y as int, w as int, h as int, px, py),
            color,
        );
    }
}

/// Distance between two numbers.
pub open spec fn abs_diff(a: int, b: int) -> int {
    if a < b {
        b - a
    } else {
        a - b
    }
}

/// The step that leads from `from` towards `to`.
pub open spec fn toward(from: int, to: int) -> int {
    if from < to {
        1
    } else {
        -1
    }
}

/// `n / d` rounded to the nearest integer, a half going up.
pub open spec fn round_div(n: int, d: int) -> int {
    (2 * n + d) / (2 * d)
}

/// Number of steps of the line: the longer of its two extents.
pub open spec fn line_steps(x0: int, y0: int, x1: int, y1: int) -> int {
    if abs_diff(x0, x1) >= abs_diff(y0, y1) {
        abs_diff(x0, x1)
    } else {
        abs_diff(y0, y1)
    }
}

/// How far point `k` of a line of the extents `dx` and `dy` lies from the
/// start, along `x` and along `y`: `k` along the longer extent, and along
/// the shorter one its share of `k`, rounded to the nearest integer.
pub open spec fn line_offsets(dx: int, dy: int, k: int) -> (int, int) {
    if dx >= dy {
        (
            k,
            if dx == 0 {
                0
            } else {
                round_div(dy * k, dx)
            },
        )
    } else {
        (round_div(dx * k, dy), k)
    }
}

/// Point `k` of the line from `(x0, y0)` to `(x1, y1)`.
pub open spec fn line_point(x0: int, y0: int, x1: int, y1: int, k: int) -> (int, int) {
    let o = line_offsets(abs_diff(x0, x1), abs_diff(y0, y1), k);
    (x0 + toward(x0, x1) * o.0, y0 + toward(y0, y1) * o.1)
}

/// Whether `(px, py)` is one of the first `n` points of the line.
pub open spec fn among_line_points(
    x0: int,
    y0: int,
    x1: int,
    y1: int,
    n: int,
    px: int,
    py: int,
) -> bool {
    exists|k: int| 0 <= k < n && #[trigger] line_point(x0, y0, x1, y1, k) == (px, py)
}

/// Whether `(px, py)` is a point of the line from `(x0, y0)` to `(x1, y1)`,
/// both ends included.
pub open spec fn on_line(x0: int, y0: int, x1: int, y1: int, px: int, py: int) -> bool {
    among_line_points(x0, y0, x1, y1, line_steps(x0, y0, x1, y1) + 1, px, py)
}

/// How the rounded share `round_div(m * k, n)` of a line moves from one
/// step to the next, for extents `m <= n`.
proof fn lemma_round_step(m: int, n: int, k: int)
    requires
        0 <= m <= n,
        0 < n,
        0 <= k,
    ensures
        2 * n * round_div(m * k, n) <= 2 * (m * k) + n < 2 * n * round_div(m * k, n) + 2 * n,
        round_div(m * (k + 1), n) == (if n * (2 * round_div(m * k, n) + 1) <= 2 * (m * (k + 1)) {
            round_div(m * k, n) + 1
        } else {
            round_div(m * k, n)
        }),
        m * (k + 1) == m * k + m,
        0 <= m * k,
{
    let q = round_div(m * k, n);
    lemma_fundamental_div_mod(2 * (m * k) + n, 2 * n);
    lemma_mod_bound(2 * (m * k) + n, 2 * n);
    assert(m * (k + 1) == m * k + m) by (nonlinear_arith);
    assert(0 <= m * k) by (nonlinear_arith)
        requires
            0 <= m,
            0 <= k,
    ;
    assert(n * (2 * q + 1) == 2 * n * q + n) by (nonlinear_arith);
    assert((q + 1) * (2 * n) == 2 * n * q + 2 * n) by (nonlinear_arith);
    assert((q + 2) * (2 * n) == 2 * n * q + 4 * n) by (nonlinear_arith);
    assert(q * (2 * n) == 2 * n * q) by (nonlinear_arith);
    assert((2 * n) * q == 2 * n * q) by (nonlinear_arith);
    if n * (2 * q + 1) <= 2 * (m * (k + 1)) {
        lemma_div_between(2 * (m * (k + 1)) + n, 2 * n, q + 1, q + 1);
    } else {
        lemma_div_between(2 * (m * (k + 1)) + n, 2 * n, q, q);
    }
}

/// The rounded share is nothing at the start and everything at the end.
proof fn lemma_round_ends(m: int, n: int)
    requires
        0 <= m <= n,
        0 < n,
    ensures
        round_div(m * 0, n) == 0,
        round_div(m * n, n) == m,
{
    assert(m * 0 == 0) by (nonlinear_arith);
    lemma_div_between(2 * (m * 0) + n, 2 * n, 0, 0);
    assert(m * (2 * n) == 2 * (m * n)) by (nonlinear_arith);
    assert((m + 1) * (2 * n) == 2 * (m * n) + 2 * n) by (nonlinear_arith);
    lemma_div_between(2 * (m * n) + n, 2 * n, m, m);
}

/// The rounded share never exceeds the shorter extent.
proof fn lemma_round_bound(m: int, n: int, k: int)
    requires
        0 <= m <= n,
        0 < n,
        0 <= k <= n,
    ensures
        0 <= round_div(m * k, n) <= m,
{
    assert(0 <= m * k <= m * n) by (nonlinear_arith)
        requires
            0 <= m,
            0 <= k <= n,
    ;
    assert(0 * (2 * n) == 0) by (nonlinear_arith);
    assert((m + 1) * (2 * n) == 2 * (m * n) + 2 * n) by (nonlinear_arith);
    lemma_div_between(2 * (m * k) + n, 2 * n, 0, m);
}

/// Draws the line between two points given by wide coordinates.
fn line(surface: &mut Surface, x0: i64, y0: i64, x1: i64, y1: i64, color: Color)
    requires
        -0x2_0000_0000 <= x0 <= 0x2_0000_0000,
        -0x2_0000_0000 <= y0 <= 0x2_0000_0000,
        -0x2_0000_0000 <= x1 <= 0x2_0000_0000,
        -0x2_0000_0000 <= y1 <= 0x2_0000_0000,
    ensures
        painted(
            old(surface),
            final(surface),
            |px: int, py: int| on_line(x0 as int, y0 as int, x1 as int, y1 as int, px, py),
            color,
        ),
{
    let dx: i64 = if x0 < x1 {
        x1 - x0
    } else {
        x0 - x1
    };
    let sx: i64 = if x0 < x1 {
        1
    } else {
        -1
    };
    let dy: i64 = if y0 < y1 {
        y1 - y0
    } else {
        y0 - y1
    };
    let sy: i64 = if y0 < y1 {
        1
    } else {
        -1
    };
    let mut err: i64 = dx - dy;
    let mut cx: i64 = x0;
    let mut cy: i64 = y0;
    let mut done = false;
    let ghost n = line_steps(x0 as int, y0 as int, x1 as int, y1 as int);
    let ghost mut k: int = 0;
    let ghost mut i: int = 0;
    let ghost mut j: int = 0;
    proof {
        if dx >= dy && dx > 0 {
            lemma_round_ends(dy as int, dx as int);
        }
        if dx < dy {
            lemma_round_ends(dx as int, dy as int);
        }
        lemma_painted_nothing(
            old(surface),
            |px: int, py: int|
                among_line_points(x0 as int, y0 as int, x1 as int, y1 as int, 0, px, py),
            color,
        );
    }
    while !done
        invariant
            -0x2_0000_0000 <= x0 <= 0x2_0000_0000,
            -0x2_0000_0000 <= y0 <= 0x2_0000_0000,
            -0x2_0000_0000 <= x1 <= 0x2_0000_0000,
            -0x2_0000_0000 <= y1 <= 0x2_0000_0000,
            dx == abs_diff(x0 as int, x1 as int),
            dy == abs_diff(y0 as int, y1 as int),
            sx == toward(x0 as int, x1 as int),
            sy == toward(y0 as int, y1 as int),
            n == line_steps(x0 as int, y0 as int, x1 as int, y1 as int),
            0 <= k <= n + 1,
            done ==> k == n + 1,
            !done ==> {
                &&& k <= n
                &&& (i, j) == line_offsets(dx as int, dy as int, k)
                &&& 0 <= i <= dx
                &&& 0 <= j <= dy
                &&& cx == x0 + sx * i
                &&& cy == y0 + sy * j
                &&& err == dx - dy + dx * j - dy * i
                &&& -0x30_0000_0000 <= err <= 0x30_0000_0000
            },
            painted(
                old(surface),
                surface,
                |px: int, py: int|
                    among_line_points(x0 as int, y0 as int, x1 as int, y1 as int, k, px, py),
                color,
            ),
        decreases n + 1 - k,
    {
        let ghost prev = *surface;
        plot(surface, cx, cy, color);
        proof {
            assert(line_point(x0 as int, y0 as int, x1 as int, y1 as int, k) == (
                cx as int,
                cy as int,
            ));
            assert forall|px: int, py: int| old(surface).in_bounds(px, py) implies #[trigger]
                among_line_points(x0 as int, y0 as int, x1 as int, y1 as int, k + 1, px, py) == (
            among_line_points(x0 as int, y0 as int, x1 as int, y1 as int, k, px, py) || (px == cx
                && py == cy)) by {
                if among_line_points(x0 as int, y0 as int, x1 as int, y1 as int, k + 1, px, py) {
                    let w = choose|w: int|
                        0 <= w < k + 1 && #[trigger] line_point(
                            x0 as int,
                            y0 as int,
                            x1 as int,
                            y1 as int,
                            w,
                        ) == (px, py);
                    if w < k {
                        assert(among_line_points(
                            x0 as int,
                            y0 as int,
                            x1 as int,
                            y1 as int,
                            k,
                            px,
                            py,
                        ));
                    }
                }
                if among_line_points(x0 as int, y0 as int, x1 as int, y1 as int, k, px, py) {
                    let w = choose|w: int|
                        0 <= w < k && #[trigger] line_point(
                            x0 as int,
                            y0 as int,
                            x1 as int,
                            y1 as int,
                            w,
                        ) == (px, py);
                    assert(0 <= w < k + 1);
                }
            }
            lemma_painted_twice(
                old(surface),
                &prev,
                surface,
                |px: int, py: int|
                    among_line_points(x0 as int, y0 as int, x1 as int, y1 as int, k, px, py),
                |px: int, py: int| px == cx && py == cy,
                |px: int, py: int|
                    among_line_points(x0 as int, y0 as int, x1 as int, y1 as int, k + 1, px, py),
                color,
            );
            lemma_sign_times(sx as int, i, dx as int);
            lemma_sign_times(sy as int, j, dy as int);
            if dx >= dy && dx > 0 {
                lemma_round_ends(dy as int, dx as int);
                lemma_round_step(dy as int, dx as int, k);
                lemma_round_bound(dy as int, dx as int, if k < n { k + 1 } else { k });
                lemma_round_step(dy as int, dx as int, k + 1);
            }
            if dx < dy {
                lemma_round_ends(dx as int, dy as int);
                lemma_round_step(dx as int, dy as int, k);
                lemma_round_bound(dx as int, dy as int, if k < n { k + 1 } else { k });
                lemma_round_step(dx as int, dy as int, k + 1);
            }
        }
        if cx == x1 && cy == y1 {
            done = true;
            proof {
                assert(i == dx && j == dy);
                assert(k == n);
                k = k + 1;
            }
        } else {
            proof {
                assert(k < n);
            }
            let e2 = 2 * err;
            let ghost old_i = i;
            let ghost old_j = j;
            if e2 >= -dy {
                err = err - dy;
                cx = cx + sx;
                proof {
                    i = i + 1;
                }
            }
            if e2 <= dx {
                err = err + dx;
                cy = cy + sy;
                proof {
                    j = j + 1;
                }
            }
            proof {
                lemma_line_algebra(
                    dx as int,
                    dy as int,
                    old_i,
                    old_j,
                    sx as int,
                    sy as int,
                );
                if dx >= dy {
                    assert(dx * (2 * old_j + 1) == 2 * (dx * old_j) + dx) by (nonlinear_arith);
                } else {
                    assert(dy * (2 * old_i + 1) == 2 * (dy * old_i) + dy) by (nonlinear_arith);
                }
                k = k + 1;
            }
        }
    }
}

/// Draws the line from `(x0, y0)` to `(x1, y1)`, both ends included, by
/// Bresenham's algorithm; what falls outside the surface is cut off.
///
/// The line has one point for each step along its longer extent; along the
/// shorter extent a point lies at the nearest integer to its share of the
/// way.
pub fn draw_line(surface: &mut Surface, x0: i32, y0: i32, x1: i32, y1: i32, color: Color)
    ensures
        painted(
            old(surface),
            final(surface),
            |px: int, py: int| on_line(x0 as int, y0 as int, x1 as int, y1 as int, px, py),
            color,
        ),
{
    line(surface, x0 as i64, y0 as i64, x1 as i64, y1 as i64, color);
}

/// A step times a count is the count or its negation; with the count
/// between nothing and the whole extent it is the whole extent only at the
/// end.
proof fn lemma_sign_times(s: int, i: int, d: int)
    requires
        s == 1 || s == -1,
    ensures
        s * i == (if s == 1 {
            i
        } else {
            -i
        }),
        s * d == (if s == 1 {
            d
        } else {
            -d
        }),
{
    assert(1 * i == i && (-1) * i == -i) by (nonlinear_arith);
    assert(1 * d == d && (-1) * d == -d) by (nonlinear_arith);
}

/// Products of the extents with the counts after one more step.
proof fn lemma_line_algebra(dx: int, dy: int, i: int, j: int, sx: int, sy: int)
    ensures
        dx * (j + 1) == dx * j + dx,
        dy * (i + 1) == dy * i + dy,
        sx * (i + 1) == sx * i + sx,
        sy * (j + 1) == sy * j + sy,
        2 * dx * j == 2 * (dx * j),
        2 * dy * i == 2 * (dy * i),
{
    assert(2 * dy * i == 2 * (dy * i)) by (nonlinear_arith);
    assert(dx * (j + 1) == dx * j + dx) by (nonlinear_arith);
    assert(dy * (i + 1) == dy * i + dy) by (nonlinear_arith);
    assert(sx * (i + 1) == sx * i + sx) by (nonlinear_arith);
    assert(sy * (j + 1) == sy * j + sy) by (nonlinear_arith);
    assert(2 * dx * j == 2 * (dx * j)) by (nonlinear_arith);
}

/// A level line is the run of pixels between its ends.
pub proof fn lemma_level_line(xa: int, xb: int, y: int, px: int, py: int)
    ensures
        on_line(xa, y, xb, y, px, py) == (py == y && (if xa < xb {
            xa <= px <= xb
        } else {
            xb <= px <= xa
        })),
{
    let dx = abs_diff(xa, xb);
    let s = toward(xa, xb);
    assert forall|k: int| 0 <= k <= dx implies #[trigger] line_point(xa, y, xb, y, k) == (
        xa + s * k,
        y,
    ) by {
        lemma_sign_times(s, k, dx);
        lemma_sign_times(toward(y, y), 0, 0);
        if dx > 0 {
            assert(0 * k == 0) by (nonlinear_arith);
            lemma_div_between(2 * (0 * k) + dx, 2 * dx, 0, 0);
        }
    }
    if on_line(xa, y, xb, y, px, py) {
        let k = choose|k: int|
            0 <= k < line_steps(xa, y, xb, y) + 1 && #[trigger] line_point(xa, y, xb, y, k) == (
                px,
                py,
            );
        lemma_sign_times(s, k, dx);
    }
    if py == y && (if xa < xb {
        xa <= px <= xb
    } else {
        xb <= px <= xa
    }) {
        let k = abs_diff(px, xa);
        lemma_sign_times(s, k, dx);
        assert(line_point(xa, y, xb, y, k) == (px, py));
    }
}

/// An upright line is the run of pixels between its ends.
pub proof fn lemma_upright_line(x: int, ya: int, yb: int, px: int, py: int)
    ensures
        on_line(x, ya, x, yb, px, py) == (px == x && (if ya < yb {
            ya <= py <= yb
        } else {
            yb <= py <= ya
        })),
{
    let dy = abs_diff(ya, yb);
    let s = toward(ya, yb);
    assert forall|k: int| 0 <= k <= dy implies #[trigger] line_point(x, ya, x, yb, k) == (
        x,
        ya + s * k,
    ) by {
        lemma_sign_times(s, k, dy);
        lemma_sign_times(toward(x, x), 0, 0);
        if dy > 0 {
            assert(0 * k == 0) by (nonlinear_arith);
            lemma_div_between(2 * (0 * k) + dy, 2 * dy, 0, 0);
        }
    }
    if on_line(x, ya, x, yb, px, py) {
        let k = choose|k: int|
            0 <= k < line_steps(x, ya, x, yb) + 1 && #[trigger] line_point(x, ya, x, yb, k) == (
                px,
                py,
            );
        lemma_sign_times(s, k, dy);
    }
    if px == x && (if ya < yb {
        ya <= py <= yb
    } else {
        yb <= py <= ya
    }) {
        let k = abs_diff(py, ya);
        lemma_sign_times(s, k, dy);
        assert(line_point(x, ya, x, yb, k) == (px, py));
    }
}

/// Draws the outline of a rectangle. `(x, y)` is a corner; `w` and `h` may
/// be negative. The outline is the first and last column and row of the
/// half-open region that `fill_rect` fills.
pub fn draw_rect(surface: &mut Surface, x: i32, y: i32, w: i32, h: i32, color: Color)
    ensures
        painted(
            old(surface),
            final(surface),
            |px: int, py: int| on_rect_outline(x as int, y as int, w as int, h as int, px, py),
            color,
        ),
{
    if w == 0 || h == 0 {
        proof {
            lemma_painted_nothing(
                old(surface),
                |px: int, py: int| on_rect_outline(x as int, y as int, w as int, h as int, px, py),
                color,
            );
        }
        return ;
    }
    let (x0, x1): (i64, i64) = if w >= 0 {
        (x as i64, x as i64 + w as i64)
    } else {
        (x as i64 + w as i64, x as i64)
    };
    let (y0, y1): (i64, i64) = if h >= 0 {
        (y as i64, y as i64 + h as i64)
    } else {
        (y as i64 + h as i64, y as i64)
    };
    let ghost top = |px: int, py: int| on_line(x0 as int, y0 as int, x1 - 1, y0 as int, px, py);
    let ghost bottom = |px: int, py: int| on_line(x0 as int, y1 - 1, x1 - 1, y1 - 1, px, py);
    let ghost left = |px: int, py: int| on_line(x0 as int, y0 as int, x0 as int, y1 - 1, px, py);
    let ghost right = |px: int, py: int| on_line(x1 - 1, y0 as int, x1 - 1, y1 - 1, px, py);
    let ghost two = |px: int, py: int| top(px, py) || bottom(px, py);
    let ghost three = |px: int, py: int| two(px, py) || left(px, py);
    let ghost outline = |px: int, py: int|
        on_rect_outline(x as int, y as int, w as int, h as int, px, py);
    line(surface, x0, y0, x1 - 1, y0, color);
    let ghost s1 = *surface;
    line(surface, x0, y1 - 1, x1 - 1, y1 - 1, color);
    let ghost s2 = *surface;
    line(surface, x0, y0, x0, y1 - 1, color);
    let ghost s3 = *surface;
    line(surface, x1 - 1, y0, x1 - 1, y1 - 1, color);
    proof {
        lemma_painted_twice(old(surface), &s1, &s2, top, bottom, two, color);
        lemma_painted_twice(old(surface), &s2, &s3, two, left, three, color);
        assert forall|px: int, py: int| old(surface).in_bounds(px, py) implies #[trigger] outline(
            px,
            py,
        ) == (three(px, py) || right(px, py)) by {
            lemma_level_line(x0 as int, x1 - 1, y0 as int, px, py);
            lemma_level_line(x0 as int, x1 - 1, y1 - 1, px, py);
            lemma_upright_line(x0 as int, y0 as int, y1 - 1, px, py);
            lemma_upright_line(x1 - 1, y0 as int, y1 - 1, px, py);
        }
        lemma_painted_twice(old(surface), &s3, surface, three, right, outline, color);
    }
}

/// Whether `(px, py)` is one of the eight images of the offset `(x, y)`
/// round the centre `(cx, cy)`: its distances from the centre along the two
/// axes are `x` and `y` in either order.
pub open spec fn eightfold(cx: int, cy: int, x: int, y: int, px: int, py: int) -> bool {
    (abs_diff(px, cx) == x && abs_diff(py, cy) == y) || (abs_diff(px, cx) == y && abs_diff(py, cy)
        == x)
}

/// Whether `(px, py)` lies on the circle of radius `r` round `(cx, cy)` as
/// the midpoint algorithm draws it. With `a` the greater and `b` the lesser
/// of the pixel's distances from the centre along the two axes, `a` is the
/// greatest number with `a * (a - 1) + b * b <= r * r`: the midpoint between
/// the pixel and its neighbour towards the centre lies inside the circle.
/// The circle of radius zero is its centre.
pub open spec fn on_circle(cx: int, cy: int, r: int, px: int, py: int) -> bool {
    let u = abs_diff(px, cx);
    let v = abs_diff(py, cy);
    let a = if u >= v {
        u
    } else {
        v
    };
    let b = if u >= v {
        v
    } else {
        u
    };
    if r == 0 {
        a == 0
    } else {
        r > 0 && a * (a - 1) + b * b <= r * r < a * (a + 1) + b * b
    }
}

/// Paints the eight images of the offset `(x, y)` round the centre.
fn plot_eightfold(surface: &mut Surface, cx: i64, cy: i64, x: i64, y: i64, color: Color)
    requires
        -0x8000_0000 <= cx <= 0x7fff_ffff,
        -0x8000_0000 <= cy <= 0x7fff_ffff,
        0 <= x <= 0x7fff_ffff,
        0 <= y <= 0x7fff_ffff,
    ensures
        painted(
            old(surface),
            final(surface),
            |px: int, py: int| eightfold(cx as int, cy as int, x as int, y as int, px, py),
            color,
        ),
{
    let ghost p1 = |px: int, py: int| px == cx + x && py == cy + y;
    let ghost p2 = |px: int, py: int| px == cx - x && py == cy + y;
    let ghost p3 = |px: int, py: int| px == cx + x && py == cy - y;
    let ghost p4 = |px: int, py: int| px == cx - x && py == cy - y;
    let ghost p5 = |px: int, py: int| px == cx + y && py == cy + x;
    let ghost p6 = |px: int, py: int| px == cx - y && py == cy + x;
    let ghost p7 = |px: int, py: int| px == cx + y && py == cy - x;
    let ghost p8 = |px: int, py: int| px == cx - y && py == cy - x;
    let ghost q2 = |px: int, py: int| p1(px, py) || p2(px, py);
    let ghost q3 = |px: int, py: int| q2(px, py) || p3(px, py);
    let ghost q4 = |px: int, py: int| q3(px, py) || p4(px, py);
    let ghost q5 = |px: int, py: int| q4(px, py) || p5(px, py);
    let ghost q6 = |px: int, py: int| q5(px, py) || p6(px, py);
    let ghost q7 = |px: int, py: int| q6(px, py) || p7(px, py);
    let ghost all = |px: int, py: int|
        eightfold(cx as int, cy as int, x as int, y as int, px, py);
    plot(surface, cx + x, cy + y, color);
    let ghost s1 = *surface;
    plot(surface, cx - x, cy + y, color);
    let ghost s2 = *surface;
    plot(surface, cx + x, cy - y, color);
    let ghost s3 = *surface;
    plot(surface, cx - x, cy - y, color);
    let ghost s4 = *surface;
    plot(surface, cx + y, cy + x, color);
    let ghost s5 = *surface;
    plot(surface, cx - y, cy + x, color);
    let ghost s6 = *surface;
    plot(surface, cx + y, cy - x, color);
    let ghost s7 = *surface;
    plot(surface, cx - y, cy - x, color);
    proof {
        lemma_painted_twice(old(surface), &s1, &s2, p1, p2, q2, color);
        lemma_painted_twice(old(surface), &s2, &s3, q2, p3, q3, color);
        lemma_painted_twice(old(surface), &s3, &s4, q3, p4, q4, color);
        lemma_painted_twice(old(surface), &s4, &s5, q4, p5, q5, color);
        lemma_painted_twice(old(surface), &s5, &s6, q5, p6, q6, color);
        lemma_painted_twice(old(surface), &s6, &s7, q6, p7, q7, color);
        lemma_painted_twice(old(surface), &s7, surface, q7, p8, all, color);
    }
}

/// The part of the circle whose lesser distance from the centre is below
/// `rows`.
pub open spec fn on_circle_below(cx: int, cy: int, r: int, rows: int, px: int, py: int) -> bool {
    on_circle(cx, cy, r, px, py) && (abs_diff(px, cx) < rows || abs_diff(py, cy) < rows)
}

/// Draws the outline of the circle of radius `r` round `(cx, cy)` by the
/// midpoint algorithm; what falls outside the surface is cut off. A
/// negative radius draws nothing, the radius zero the centre.
pub fn draw_circle(surface: &mut Surface, cx: i32, cy: i32, r: i32, color: Color)
    ensures
        painted(
            old(surface),
            final(surface),
            |px: int, py: int| on_circle(cx as int, cy as int, r as int, px, py),
            color,
        ),
{
    let ghost whole = |px: int, py: int| on_circle(cx as int, cy as int, r as int, px, py);
    if r < 0 {
        proof {
            lemma_painted_nothing(old(surface), whole, color);
        }
        return ;
    }
    if r == 0 {
        plot(surface, cx as i64, cy as i64, color);
        proof {
            lemma_painted_nothing(surface, |px: int, py: int| false, color);
            lemma_painted_twice(
                old(surface),
                surface,
                surface,
                |px: int, py: int| px == cx && py == cy,
                |px: int, py: int| false,
                whole,
                color,
            );
        }
        return ;
    }
    let mut x: i64 = r as i64;
    let mut y: i64 = 0;
    let mut d: i64 = 1 - r as i64;
    proof {
        assert(r * (r - 1) + 0 * 0 <= r * r < r * (r + 1) + 0 * 0) by (nonlinear_arith)
            requires
                r > 0,
        ;
        assert(r * r - r + (0 + 1) * (0 + 1) - r * r == 1 - r) by (nonlinear_arith);
        lemma_painted_nothing(
            old(surface),
            |px: int, py: int| on_circle_below(cx as int, cy as int, r as int, 0, px, py),
            color,
        );
    }
    while y <= x
        invariant
            r > 0,
            0 <= y <= r + 1,
            -1 <= x <= r,
            y <= x + 2,
            d == x * x - x + (y + 1) * (y + 1) - r * r,
            r * r < x * (x + 1) + y * y,
            y <= x ==> x * (x - 1) + y * y <= r * r,
            painted(
                old(surface),
                surface,
                |px: int, py: int| on_circle_below(cx as int, cy as int, r as int, y as int, px, py),
                color,
            ),
        decreases r + 2 - y,
    {
        let ghost prev = *surface;
        proof {
            lemma_circle_numbers(x as int, y as int, r as int);
        }
        plot_eightfold(surface, cx as i64, cy as i64, x, y, color);
        proof {
            assert forall|px: int, py: int| old(surface).in_bounds(px, py) implies
                #[trigger] on_circle_below(cx as int, cy as int, r as int, y + 1, px, py) == (
            on_circle_below(cx as int, cy as int, r as int, y as int, px, py) || eightfold(
                cx as int,
                cy as int,
                x as int,
                y as int,
                px,
                py,
            )) by {
                lemma_circle_row(cx as int, cy as int, r as int, x as int, y as int, px, py);
            }
            lemma_painted_twice(
                old(surface),
                &prev,
                surface,
                |px: int, py: int| on_circle_below(cx as int, cy as int, r as int, y as int, px, py),
                |px: int, py: int| eightfold(cx as int, cy as int, x as int, y as int, px, py),
                |px: int, py: int| on_circle_below(cx as int, cy as int, r as int, y + 1, px, py),
                color,
            );
            lemma_circle_step(x as int, y as int, r as int);
        }
        y = y + 1;
        if d <= 0 {
            d = d + 2 * y + 1;
        } else {
            x = x - 1;
            d = d + 2 * (y - x) + 1;
        }
    }
    proof {
        assert forall|px: int, py: int| old(surface).in_bounds(px, py) implies #[trigger] whole(
            px,
            py,
        ) == (on_circle_below(cx as int, cy as int, r as int, y as int, px, py) || false) by {
            lemma_circle_end(cx as int, cy as int, r as int, x as int, y as int, px, py);
        }
        lemma_painted_nothing(surface, |px: int, py: int| false, color);
        lemma_painted_twice(
            old(surface),
            surface,
            surface,
            |px: int, py: int| on_circle_below(cx as int, cy as int, r as int, y as int, px, py),
            |px: int, py: int| false,
            whole,
            color,
        );
    }
}

/// Bounds of the numbers that the circle loop works with.
proof fn lemma_circle_numbers(x: int, y: int, r: int)
    requires
        0 <= y <= x <= r,
        r <= 0x7fff_ffff,
        x * (x - 1) + y * y <= r * r < x * (x + 1) + y * y,
    ensures
        -0x2_0000_0000 <= x * x - x + (y + 1) * (y + 1) - r * r <= 0x2_0000_0000,
{
    assert(x * (x - 1) == x * x - x) by (nonlinear_arith);
    assert(x * (x + 1) == x * x + x) by (nonlinear_arith);
    assert((y + 1) * (y + 1) == y * y + 2 * y + 1) by (nonlinear_arith);
}

/// The squares after one step of the circle loop.
proof fn lemma_circle_step(x: int, y: int, r: int)
    ensures
        (y + 2) * (y + 2) == (y + 1) * (y + 1) + 2 * (y + 1) + 1,
        (y + 1) * (y + 1) == y * y + 2 * y + 1,
        (x - 1) * (x - 1) - (x - 1) == x * x - x - 2 * (x - 1),
        x * (x + 1) == x * x + x,
        x * (x - 1) == x * x - x,
        (x - 1) * x == x * x - x,
        (x - 1) * (x - 2) == x * x - 3 * x + 2,
{
    assert((y + 2) * (y + 2) == (y + 1) * (y + 1) + 2 * (y + 1) + 1) by (nonlinear_arith);
    assert((y + 1) * (y + 1) == y * y + 2 * y + 1) by (nonlinear_arith);
    assert((x - 1) * (x - 1) - (x - 1) == x * x - x - 2 * (x - 1)) by (nonlinear_arith);
    assert(x * (x + 1) == x * x + x) by (nonlinear_arith);
    assert(x * (x - 1) == x * x - x) by (nonlinear_arith);
    assert((x - 1) * x == x * x - x) by (nonlinear_arith);
    assert((x - 1) * (x - 2) == x * x - 3 * x + 2) by (nonlinear_arith);
}

/// `a * (a + 1)` grows with `a`.
proof fn lemma_oblong_grows(a: int, b: int)
    requires
        0 <= a < b,
    ensures
        a * (a + 1) <= b * (b - 1),
{
    assert(a * (a + 1) <= b * (b - 1)) by (nonlinear_arith)
        requires
            0 <= a,
            a + 1 <= b,
    ;
}

/// The pixels of the circle whose lesser distance from the centre is `y`
/// are the eight images of `(x, y)`, where `x` is the loop's column for the
/// row `y`.
proof fn lemma_circle_row(cx: int, cy: int, r: int, x: int, y: int, px: int, py: int)
    requires
        r > 0,
        0 <= y <= x,
        x * (x - 1) + y * y <= r * r < x * (x + 1) + y * y,
    ensures
        on_circle_below(cx, cy, r, y + 1, px, py) == (on_circle_below(cx, cy, r, y, px, py)
            || eightfold(cx, cy, x, y, px, py)),
{
    let u = abs_diff(px, cx);
    let v = abs_diff(py, cy);
    let a = if u >= v {
        u
    } else {
        v
    };
    let b = if u >= v {
        v
    } else {
        u
    };
    if on_circle(cx, cy, r, px, py) && b == y {
        if a < x {
            lemma_oblong_grows(a, x);
        }
        if a > x {
            lemma_oblong_grows(x, a);
        }
        assert(a == x);
    }
}

/// Once the loop's row has passed its column, no pixel of the circle is
/// left.
proof fn lemma_circle_end(cx: int, cy: int, r: int, x: int, y: int, px: int, py: int)
    requires
        r > 0,
        -1 <= x < y,
        0 <= y,
        r * r < x * (x + 1) + y * y,
    ensures
        on_circle(cx, cy, r, px, py) == on_circle_below(cx, cy, r, y, px, py),
{
    let u = abs_diff(px, cx);
    let v = abs_diff(py, cy);
    let a = if u >= v {
        u
    } else {
        v
    };
    let b = if u >= v {
        v
    } else {
        u
    };
    if on_circle(cx, cy, r, px, py) && b >= y {
        assert(a >= x + 1);
        assert(b * b >= y * y) by (nonlinear_arith)
            requires
                b >= y,
                y >= 0,
        ;
        if x >= 0 {
            lemma_oblong_grows(x, a);
        } else {
            assert(x * (x + 1) == 0) by (nonlinear_arith)
                requires
                    x == -1,
            ;
            assert(a * (a - 1) >= 0) by (nonlinear_arith)
                requires
                    a >= 0,
            ;
        }
    }
}

} // verus!
