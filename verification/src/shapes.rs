//! Lines, outlines, polygons and floor diamonds on the pixel canvas.
use vstd::prelude::*;
use crate::canvas::{in_rect, Canvas};
use crate::color::Color;
use crate::iso::{abs, diamond_contains, diamond_contains_spec, trunc_div};
use crate::layout::{max, min};

verus! {

/// Paints `(x, y)` when it lies on the canvas; other positions are ignored.
pub fn set_pixel(canvas: &mut Canvas, x: i32, y: i32, color: Color)
    requires
        old(canvas).wf(),
    ensures
        final(canvas).wf(),
        final(canvas).geometry_spec() == old(canvas).geometry_spec(),
        final(canvas).is_light() == old(canvas).is_light(),
        forall|a: int, b: int|
            #[trigger] final(canvas).at(a, b) == if a == x && b == y && old(canvas).inside(a, b) {
                Some(color)
            } else {
                old(canvas).at(a, b)
            },
{
    if x >= 0 && y >= 0 {
        canvas.set(x as usize, y as usize, color);
    }
}

// ---------------------------------------------------------------------------
// Lines
// ---------------------------------------------------------------------------

/// How many steps a line takes: its longer extent.
pub open spec fn line_steps(x0: int, y0: int, x1: int, y1: int) -> int {
    max(abs(x1 - x0), abs(y1 - y0))
}

/// The point of step `s` of a line: `s / steps` of the way along each
/// axis, rounded towards the start.
pub open spec fn line_point(x0: int, y0: int, x1: int, y1: int, s: int) -> (int, int) {
    let n = line_steps(x0, y0, x1, y1);
    (x0 + trunc_div((x1 - x0) * s, n), y0 + trunc_div((y1 - y0) * s, n))
}

/// Whether the line from `(x0, y0)` to `(x1, y1)` paints `(a, b)`: one
/// point for each step from the start to the end inclusive.
pub open spec fn on_line(x0: int, y0: int, x1: int, y1: int, a: int, b: int) -> bool {
    if line_steps(x0, y0, x1, y1) == 0 {
        a == x0 && b == y0
    } else {
        exists|s: int| 0 <= s <= line_steps(x0, y0, x1, y1) && #[trigger] line_point(x0, y0, x1, y1, s) == (a, b)
    }
}

/// Lines whose step arithmetic fits in `i32`.
pub open spec fn line_fits(x0: int, y0: int, x1: int, y1: int) -> bool {
    line_steps(x0, y0, x1, y1) * line_steps(x0, y0, x1, y1) <= i32::MAX
}

/// The pixel at `(a, b)` after drawing a line on `before`.
pub open spec fn after_line(before: Canvas, x0: int, y0: int, x1: int, y1: int, color: Color, a: int, b: int) -> Option<Color> {
    if on_line(x0, y0, x1, y1, a, b) && before.inside(a, b) {
        Some(color)
    } else {
        before.at(a, b)
    }
}

proof fn lemma_steps_small(x0: int, y0: int, x1: int, y1: int)
    requires
        line_fits(x0, y0, x1, y1),
    ensures
        line_steps(x0, y0, x1, y1) <= 46_341,
{
    let n = line_steps(x0, y0, x1, y1);
    assert(n <= 46_341) by (nonlinear_arith)
        requires
            n * n <= 0x7fff_ffff,
            n >= 0,
    ;
}

/// A share `t / n` (at most whole) of `d`, rounded towards zero, lies
/// between zero and `d`.
pub(crate) proof fn lemma_share_between(d: int, t: int, n: int)
    requires
        0 <= t <= n,
        n > 0,
    ensures
        min(0, d) <= trunc_div(d * t, n) <= max(0, d),
{
    if d >= 0 {
        assert(0 <= (d * t) / n <= d) by (nonlinear_arith)
            requires
                d >= 0,
                0 <= t <= n,
                n > 0,
        ;
    } else {
        assert(d * t <= 0) by (nonlinear_arith)
            requires
                d < 0,
                t >= 0,
        ;
        assert(0 <= (-(d * t)) / n <= -d) by (nonlinear_arith)
            requires
                d < 0,
                0 <= t <= n,
                n > 0,
        ;
    }
}

/// Draws a line, one point per step of its longer extent.
pub fn draw_line(canvas: &mut Canvas, x0: i32, y0: i32, x1: i32, y1: i32, color: Color)
    requires
        old(canvas).wf(),
        line_fits(x0 as int, y0 as int, x1 as int, y1 as int),
    ensures
        final(canvas).wf(),
        final(canvas).geometry_spec() == old(canvas).geometry_spec(),
        final(canvas).is_light() == old(canvas).is_light(),
        forall|a: int, b: int|
            #[trigger] final(canvas).at(a, b) == after_line(*old(canvas), x0 as int, y0 as int, x1 as int, y1 as int, color, a, b),
{
    let ghost before = *canvas;
    let ghost n = line_steps(x0 as int, y0 as int, x1 as int, y1 as int);
    proof {
        lemma_steps_small(x0 as int, y0 as int, x1 as int, y1 as int);
    }
    let dx: i32 = x1 - x0;
    let dy: i32 = y1 - y0;
    let ax: i32 = if dx < 0 {
        -dx
    } else {
        dx
    };
    let ay: i32 = if dy < 0 {
        -dy
    } else {
        dy
    };
    let steps: i32 = if ax > ay {
        ax
    } else {
        ay
    };
    assert(steps == n);
    if steps == 0 {
        set_pixel(canvas, x0, y0, color);
        return;
    }
    let mut step: i32 = 0;
    while step <= steps
        invariant
            0 <= step <= steps + 1,
            n == line_steps(x0 as int, y0 as int, x1 as int, y1 as int),
            steps == n,
            0 < steps <= 46_341,
            steps * steps <= i32::MAX,
            dx == x1 - x0,
            dy == y1 - y0,
            abs(dx as int) <= steps,
            abs(dy as int) <= steps,
            canvas.wf(),
            canvas.geometry_spec() == before.geometry_spec(),
            canvas.is_light() == before.is_light(),
            forall|a: int, b: int|
                #[trigger] canvas.at(a, b) == if (exists|s: int|
                    0 <= s < step && #[trigger] line_point(x0 as int, y0 as int, x1 as int, y1 as int, s) == (a, b))
                    && before.inside(a, b) {
                    Some(color)
                } else {
                    before.at(a, b)
                },
        decreases steps + 1 - step,
    {
        assert(-(steps * steps) <= dx * step <= steps * steps) by (nonlinear_arith)
            requires
                abs(dx as int) <= steps,
                0 <= step <= steps,
        ;
        assert(-(steps * steps) <= dy * step <= steps * steps) by (nonlinear_arith)
            requires
                abs(dy as int) <= steps,
                0 <= step <= steps,
        ;
        let qx: i32 = dx * step / steps;
        let qy: i32 = dy * step / steps;
        proof {
            lemma_share_between(dx as int, step as int, steps as int);
            lemma_share_between(dy as int, step as int, steps as int);
        }
        let x: i32 = x0 + qx;
        let y: i32 = y0 + qy;
        let ghost prev = *canvas;
        set_pixel(canvas, x, y, color);
        proof {
            let p = line_point(x0 as int, y0 as int, x1 as int, y1 as int, step as int);
            assert(qx as int == trunc_div(dx * step, steps as int));
            assert(qy as int == trunc_div(dy * step, steps as int));
            assert((x1 as int - x0 as int) * (step as int) == dx * step);
            assert((y1 as int - y0 as int) * (step as int) == dy * step);
            assert(p == (x as int, y as int));
            assert forall|a: int, b: int| #[trigger]
                canvas.at(a, b) == if (exists|s: int|
                    0 <= s < step + 1 && #[trigger] line_point(x0 as int, y0 as int, x1 as int, y1 as int, s) == (a, b))
                    && before.inside(a, b) {
                    Some(color)
                } else {
                    before.at(a, b)
                } by {
                if a == x && b == y {
                    assert(line_point(x0 as int, y0 as int, x1 as int, y1 as int, step as int) == (a, b));
                } else if exists|s: int|
                    0 <= s < step + 1 && #[trigger] line_point(x0 as int, y0 as int, x1 as int, y1 as int, s) == (a, b) {
                    let s = choose|s: int|
                        0 <= s < step + 1 && #[trigger] line_point(x0 as int, y0 as int, x1 as int, y1 as int, s) == (a, b);
                    assert(s != step);
                    assert(0 <= s < step);
                }
            }
        }
        step += 1;
    }
    proof {
        assert forall|a: int, b: int| #[trigger]
            canvas.at(a, b) == after_line(before, x0 as int, y0 as int, x1 as int, y1 as int, color, a, b) by {
            if on_line(x0 as int, y0 as int, x1 as int, y1 as int, a, b) {
                let s = choose|s: int|
                    0 <= s <= n && #[trigger] line_point(x0 as int, y0 as int, x1 as int, y1 as int, s) == (a, b);
                assert(0 <= s < step);
            }
        }
    }
}

proof fn lemma_exact_share(d: int, s: int)
    requires
        d != 0,
        s >= 0,
    ensures
        trunc_div(d * s, abs(d)) == if d > 0 {
            s
        } else {
            -s
        },
        trunc_div(0 * s, abs(d)) == 0,
{
    if d > 0 {
        assert((d * s) / d == s) by (nonlinear_arith)
            requires
                d > 0,
                s >= 0,
        ;
    } else {
        assert(d * s <= 0) by (nonlinear_arith)
            requires
                d < 0,
                s >= 0,
        ;
        assert((-(d * s)) / (-d) == s) by (nonlinear_arith)
            requires
                d < 0,
                s >= 0,
        ;
    }
}

/// A line along a row or a column paints exactly the pixels from one end
/// to the other.
pub proof fn law_straight_lines_are_segments(x0: int, y0: int, x1: int, y1: int, a: int, b: int)
    requires
        x0 == x1 || y0 == y1,
    ensures
        on_line(x0, y0, x1, y1, a, b) <==> (min(x0, x1) <= a <= max(x0, x1) && min(y0, y1) <= b <= max(y0, y1)),
{
    let n = line_steps(x0, y0, x1, y1);
    if n == 0 {
        return;
    }
    if y0 == y1 {
        let d = x1 - x0;
        assert(n == abs(d));
        assert forall|s: int| 0 <= s <= n implies #[trigger] line_point(x0, y0, x1, y1, s) == (
            x0 + if d > 0 {
                s
            } else {
                -s
            },
            y0,
        ) by {
            lemma_exact_share(d, s);
        }
        if min(x0, x1) <= a <= max(x0, x1) && b == y0 {
            let s = abs(a - x0);
            assert(line_point(x0, y0, x1, y1, s) == (a, b));
        }
    } else {
        let d = y1 - y0;
        assert(n == abs(d));
        assert forall|s: int| 0 <= s <= n implies #[trigger] line_point(x0, y0, x1, y1, s) == (
            x0,
            y0 + if d > 0 {
                s
            } else {
                -s
            },
        ) by {
            lemma_exact_share(d, s);
        }
        if min(y0, y1) <= b <= max(y0, y1) && a == x0 {
            let s = abs(b - y0);
            assert(line_point(x0, y0, x1, y1, s) == (a, b));
        }
    }
}

/// A line paints both of its ends.
pub proof fn law_lines_reach_both_ends(x0: int, y0: int, x1: int, y1: int)
    ensures
        on_line(x0, y0, x1, y1, x0, y0),
        on_line(x0, y0, x1, y1, x1, y1),
{
    let n = line_steps(x0, y0, x1, y1);
    if n > 0 {
        assert((x1 - x0) * 0 == 0 && (y1 - y0) * 0 == 0);
        assert(line_point(x0, y0, x1, y1, 0) == (x0, y0));
        lemma_whole_share(x1 - x0, n);
        lemma_whole_share(y1 - y0, n);
        assert(line_point(x0, y0, x1, y1, n) == (x1, y1));
    }
}

proof fn lemma_whole_share(d: int, n: int)
    requires
        n > 0,
    ensures
        trunc_div(d * n, n) == d,
{
    if d >= 0 {
        assert((d * n) / n == d) by (nonlinear_arith)
            requires
                n > 0,
                d >= 0,
        ;
    } else {
        assert(d * n < 0) by (nonlinear_arith)
            requires
                n > 0,
                d < 0,
        ;
        assert((-(d * n)) / n == -d) by (nonlinear_arith)
            requires
                n > 0,
                d < 0,
        ;
    }
}

// ---------------------------------------------------------------------------
// Outlines
// ---------------------------------------------------------------------------

/// Whether `(a, b)` lies on the edge of the rectangle at `(x, y)` of `w`
/// by `h` pixels.
pub open spec fn on_border(x: int, y: int, w: int, h: int, a: int, b: int) -> bool {
    in_rect(x, y, w, h, a, b) && (a == x || a == x + w - 1 || b == y || b == y + h - 1)
}

/// Rectangles whose outline fits the line arithmetic.
pub open spec fn outline_fits(x: int, y: int, w: int, h: int) -> bool {
    w > 0 && h > 0 ==> {
        &&& x + w <= i32::MAX
        &&& y + h <= i32::MAX
        &&& (w - 1) * (w - 1) <= i32::MAX
        &&& (h - 1) * (h - 1) <= i32::MAX
    }
}

/// Draws the one-pixel edge of a rectangle; an empty rectangle draws
/// nothing.
pub fn draw_rect_outline(canvas: &mut Canvas, x: i32, y: i32, width: i32, height: i32, color: Color)
    requires
        old(canvas).wf(),
        outline_fits(x as int, y as int, width as int, height as int),
    ensures
        final(canvas).wf(),
        final(canvas).geometry_spec() == old(canvas).geometry_spec(),
        final(canvas).is_light() == old(canvas).is_light(),
        forall|a: int, b: int|
            #[trigger] final(canvas).at(a, b) == if on_border(x as int, y as int, width as int, height as int, a, b)
                && old(canvas).inside(a, b) {
                Some(color)
            } else {
                old(canvas).at(a, b)
            },
{
    if width <= 0 || height <= 0 {
        return;
    }
    let ghost before = *canvas;
    let right = x + width - 1;
    let bottom = y + height - 1;
    draw_line(canvas, x, y, right, y, color);
    draw_line(canvas, x, y, x, bottom, color);
    draw_line(canvas, right, y, right, bottom, color);
    draw_line(canvas, x, bottom, right, bottom, color);
    proof {
        assert forall|a: int, b: int| #[trigger]
            canvas.at(a, b) == if on_border(x as int, y as int, width as int, height as int, a, b)
                && before.inside(a, b) {
                Some(color)
            } else {
                before.at(a, b)
            } by {
            law_straight_lines_are_segments(x as int, y as int, right as int, y as int, a, b);
            law_straight_lines_are_segments(x as int, y as int, x as int, bottom as int, a, b);
            law_straight_lines_are_segments(right as int, y as int, right as int, bottom as int, a, b);
            law_straight_lines_are_segments(x as int, bottom as int, right as int, bottom as int, a, b);
        }
    }
}

// ---------------------------------------------------------------------------
// Polygons
// ---------------------------------------------------------------------------

/// Whether the closed outline through `points` paints `(a, b)`: some edge
/// from a point to the next, the last joined back to the first.
pub open spec fn on_outline(points: Seq<(i32, i32)>, a: int, b: int) -> bool {
    exists|i: int|
        0 <= i < points.len() && #[trigger] on_line(
            points[i].0 as int,
            points[i].1 as int,
            points[(i + 1) % (points.len() as int)].0 as int,
            points[(i + 1) % (points.len() as int)].1 as int,
            a,
            b,
        )
}

/// Outlines each of whose edges fits the line arithmetic.
pub open spec fn outline_edges_fit(points: Seq<(i32, i32)>) -> bool {
    forall|i: int|
        0 <= i < points.len() ==> #[trigger] line_fits(
            points[i].0 as int,
            points[i].1 as int,
            points[(i + 1) % (points.len() as int)].0 as int,
            points[(i + 1) % (points.len() as int)].1 as int,
        )
}

/// Draws the closed outline through `points`; fewer than two points draw
/// nothing.
pub fn draw_polygon(canvas: &mut Canvas, points: &[(i32, i32)], color: Color)
    requires
        old(canvas).wf(),
        points@.len() >= 2 ==> outline_edges_fit(points@),
    ensures
        final(canvas).wf(),
        final(canvas).geometry_spec() == old(canvas).geometry_spec(),
        final(canvas).is_light() == old(canvas).is_light(),
        forall|a: int, b: int|
            #[trigger] final(canvas).at(a, b) == if points@.len() >= 2 && on_outline(points@, a, b) && old(canvas).inside(a, b) {
                Some(color)
            } else {
                old(canvas).at(a, b)
            },
{
    let n = points.len();
    if n < 2 {
        return;
    }
    let ghost before = *canvas;
    let ghost ps = points@;
    let mut index: usize = 0;
    while index < n
        invariant
            n == points@.len(),
            ps == points@,
            n >= 2,
            index <= n,
            outline_edges_fit(ps),
            canvas.wf(),
            canvas.geometry_spec() == before.geometry_spec(),
            canvas.is_light() == before.is_light(),
            forall|a: int, b: int|
                #[trigger] canvas.at(a, b) == if (exists|i: int|
                    0 <= i < index && #[trigger] on_line(
                        ps[i].0 as int,
                        ps[i].1 as int,
                        ps[(i + 1) % (n as int)].0 as int,
                        ps[(i + 1) % (n as int)].1 as int,
                        a,
                        b,
                    )) && before.inside(a, b) {
                    Some(color)
                } else {
                    before.at(a, b)
                },
        decreases n - index,
    {
        let start = points[index];
        let next = if index + 1 < n {
            index + 1
        } else {
            0
        };
        proof {
            if index + 1 < n {
                vstd::arithmetic::div_mod::lemma_small_mod((index + 1) as nat, n as nat);
            } else {
                vstd::arithmetic::div_mod::lemma_mod_self_0(n as int);
            }
        }
        assert(next as int == (index + 1) % (n as int));
        let end = points[next];
        assert(line_fits(
            ps[index as int].0 as int,
            ps[index as int].1 as int,
            ps[(index + 1) % (n as int)].0 as int,
            ps[(index + 1) % (n as int)].1 as int,
        ));
        draw_line(canvas, start.0, start.1, end.0, end.1, color);
        proof {
            assert forall|a: int, b: int| #[trigger]
                canvas.at(a, b) == if (exists|i: int|
                    0 <= i < index + 1 && #[trigger] on_line(
                        ps[i].0 as int,
                        ps[i].1 as int,
                        ps[(i + 1) % (n as int)].0 as int,
                        ps[(i + 1) % (n as int)].1 as int,
                        a,
                        b,
                    )) && before.inside(a, b) {
                    Some(color)
                } else {
                    before.at(a, b)
                } by {
                if on_line(start.0 as int, start.1 as int, end.0 as int, end.1 as int, a, b) {
                    assert(on_line(
                        ps[index as int].0 as int,
                        ps[index as int].1 as int,
                        ps[(index + 1) % (n as int)].0 as int,
                        ps[(index + 1) % (n as int)].1 as int,
                        a,
                        b,
                    ));
                } else if exists|i: int|
                    0 <= i < index + 1 && #[trigger] on_line(
                        ps[i].0 as int,
                        ps[i].1 as int,
                        ps[(i + 1) % (n as int)].0 as int,
                        ps[(i + 1) % (n as int)].1 as int,
                        a,
                        b,
                    ) {
                    let i = choose|i: int|
                        0 <= i < index + 1 && #[trigger] on_line(
                            ps[i].0 as int,
                            ps[i].1 as int,
                            ps[(i + 1) % (n as int)].0 as int,
                            ps[(i + 1) % (n as int)].1 as int,
                            a,
                            b,
                        );
                    assert(i != index);
                }
            }
        }
        index += 1;
    }
}

// ---------------------------------------------------------------------------
// Floor diamonds
// ---------------------------------------------------------------------------

/// The colour of a diamond's pixel: every fifth diagonal dithered.
pub open spec fn diamond_color(dx: int, dy: int, base: Color, dither: Color) -> Color {
    if (dx + dy) % 5 == 0 {
        dither
    } else {
        base
    }
}

/// Diamonds whose pixel arithmetic fits in `i32`.
pub open spec fn diamond_fits(cx: int, cy: int, half_width: int, half_height: int) -> bool {
    &&& half_height > i32::MIN
    &&& half_height >= 0 ==> half_width > i32::MIN
    &&& half_width > 0 && half_height > 0 ==> {
        &&& 2 * half_width * half_height <= i32::MAX
        &&& i32::MIN <= cx - half_width
        &&& cx + half_width <= i32::MAX
        &&& i32::MIN <= cy - half_height
        &&& cy + half_height <= i32::MAX
    }
}

/// The pixel at `(a, b)` after filling a diamond on `before`.
pub open spec fn after_diamond_fill(
    before: Canvas,
    cx: int,
    cy: int,
    half_width: int,
    half_height: int,
    base: Color,
    dither: Color,
    a: int,
    b: int,
) -> Option<Color> {
    if before.inside(a, b) && diamond_contains_spec(a - cx, b - cy, half_width, half_height) {
        Some(diamond_color(a - cx, b - cy, base, dither))
    } else {
        before.at(a, b)
    }
}

proof fn lemma_diamond_within_box(dx: int, dy: int, half_width: int, half_height: int)
    requires
        diamond_contains_spec(dx, dy, half_width, half_height),
    ensures
        -half_width <= dx <= half_width,
        -half_height <= dy <= half_height,
{
    assert(abs(dx) <= half_width) by (nonlinear_arith)
        requires
            half_width > 0,
            half_height > 0,
            abs(dy) >= 0,
            abs(dx) >= 0,
            abs(dx) * half_height + abs(dy) * half_width <= half_width * half_height,
    ;
    assert(abs(dy) <= half_height) by (nonlinear_arith)
        requires
            half_width > 0,
            half_height > 0,
            abs(dy) >= 0,
            abs(dx) >= 0,
            abs(dx) * half_height + abs(dy) * half_width <= half_width * half_height,
    ;
}

/// Fills the diamond of the given half extents around `(cx, cy)`, every
/// fifth diagonal in the dither colour.
pub fn fill_diamond(canvas: &mut Canvas, cx: i32, cy: i32, half_width: i32, half_height: i32, base: Color, dither: Color)
    requires
        old(canvas).wf(),
        diamond_fits(cx as int, cy as int, half_width as int, half_height as int),
    ensures
        final(canvas).wf(),
        final(canvas).geometry_spec() == old(canvas).geometry_spec(),
        final(canvas).is_light() == old(canvas).is_light(),
        forall|a: int, b: int|
            #[trigger] final(canvas).at(a, b) == after_diamond_fill(
                *old(canvas),
                cx as int,
                cy as int,
                half_width as int,
                half_height as int,
                base,
                dither,
                a,
                b,
            ),
{
    if half_width <= 0 || half_height <= 0 {
        return;
    }
    let ghost before = *canvas;
    let hw: i64 = half_width as i64;
    let hh: i64 = half_height as i64;
    let mut dy: i64 = -hh;
    proof {
        assert forall|a: int, b: int| #[trigger] diamond_contains_spec(a - cx, b - cy, hw as int, hh as int) implies b - cy >= dy by {
            lemma_diamond_within_box(a - cx, b - cy, hw as int, hh as int);
        }
    }
    while dy <= hh
        invariant
            hw == half_width,
            hh == half_height,
            hw > 0,
            hh > 0,
            -hh <= dy <= hh + 1,
            diamond_fits(cx as int, cy as int, half_width as int, half_height as int),
            canvas.wf(),
            canvas.geometry_spec() == before.geometry_spec(),
            canvas.is_light() == before.is_light(),
            forall|a: int, b: int|
                #[trigger] canvas.at(a, b) == if before.inside(a, b) && diamond_contains_spec(a - cx, b - cy, hw as int, hh as int)
                    && b - cy < dy {
                    Some(diamond_color(a - cx, b - cy, base, dither))
                } else {
                    before.at(a, b)
                },
        decreases hh + 1 - dy,
    {
        let mut dx: i64 = -hw;
        proof {
            assert forall|a: int, b: int| #[trigger] diamond_contains_spec(a - cx, b - cy, hw as int, hh as int) implies a - cx >= dx by {
                lemma_diamond_within_box(a - cx, b - cy, hw as int, hh as int);
            }
        }
        while dx <= hw
            invariant
                hw == half_width,
                hh == half_height,
                hw > 0,
                hh > 0,
                -hh <= dy <= hh,
                -hw <= dx <= hw + 1,
                diamond_fits(cx as int, cy as int, half_width as int, half_height as int),
                canvas.wf(),
                canvas.geometry_spec() == before.geometry_spec(),
                canvas.is_light() == before.is_light(),
                forall|a: int, b: int|
                    #[trigger] canvas.at(a, b) == if before.inside(a, b) && diamond_contains_spec(a - cx, b - cy, hw as int, hh as int)
                        && (b - cy < dy || (b - cy == dy && a - cx < dx)) {
                        Some(diamond_color(a - cx, b - cy, base, dither))
                    } else {
                        before.at(a, b)
                    },
            decreases hw + 1 - dx,
        {
            let inside = diamond_contains(dx as i32, dy as i32, half_width, half_height);
            if inside {
                proof {
                    lemma_diamond_within_box(dx as int, dy as int, hw as int, hh as int);
                    assert(hw + hh <= 2 * hw * hh) by (nonlinear_arith)
                        requires
                            hw >= 1,
                            hh >= 1,
                    ;
                }
                let color = match (dx as i32 + dy as i32).checked_rem_euclid(5) {
                    Some(0) => dither,
                    _ => base,
                };
                set_pixel(canvas, cx + dx as i32, cy + dy as i32, color);
            }
            dx += 1;
        }
        proof {
            assert forall|a: int, b: int| #[trigger]
                canvas.at(a, b) == if before.inside(a, b) && diamond_contains_spec(a - cx, b - cy, hw as int, hh as int)
                    && b - cy < dy + 1 {
                    Some(diamond_color(a - cx, b - cy, base, dither))
                } else {
                    before.at(a, b)
                } by {
                if diamond_contains_spec(a - cx, b - cy, hw as int, hh as int) {
                    lemma_diamond_within_box(a - cx, b - cy, hw as int, hh as int);
                }
            }
        }
        dy += 1;
    }
    proof {
        assert forall|a: int, b: int| #[trigger]
            canvas.at(a, b) == after_diamond_fill(before, cx as int, cy as int, half_width as int, half_height as int, base, dither, a, b) by {
            if diamond_contains_spec(a - cx, b - cy, hw as int, hh as int) {
                lemma_diamond_within_box(a - cx, b - cy, hw as int, hh as int);
            }
        }
    }
}

/// The outline colour of a theme: near-black ink on light terminals, the
/// room's own dark outline on dark ones.
pub open spec fn outline_color_spec(light: bool) -> Color {
    if light {
        Color::Rgb(28, 31, 36)
    } else {
        Color::Rgb(13, 11, 20)
    }
}

pub fn outline_color(canvas: &Canvas) -> (r: Color)
    ensures
        r == outline_color_spec(canvas.is_light()),
{
    if canvas.is_light_mode() {
        Color::Rgb(28, 31, 36)
    } else {
        Color::Rgb(13, 11, 20)
    }
}

/// The floor's shaded edge colour.
pub open spec fn floor_dark() -> Color {
    Color::Rgb(156, 135, 99)
}

/// The floor's lit edge colour.
pub open spec fn floor_dither() -> Color {
    Color::Rgb(192, 170, 130)
}

/// Diamonds whose corners and edges fit the pixel arithmetic.
pub open spec fn diamond_edges_fit(cx: int, cy: int, half_width: int, half_height: int) -> bool {
    &&& diamond_fits(cx, cy, half_width, half_height)
    &&& i32::MIN <= cx - half_width <= i32::MAX
    &&& i32::MIN <= cx + half_width <= i32::MAX
    &&& i32::MIN <= cy - half_height <= i32::MAX
    &&& i32::MIN <= cy + half_height <= i32::MAX
    &&& line_fits(cx, cy - half_height, cx - half_width, cy)
}

/// The pixel at `(a, b)` after drawing a floor diamond on `before`: the
/// filled diamond, then its back-left edge shaded, back-right edge lit,
/// front-left edge in the theme's outline colour and front-right edge
/// shaded, each later edge over the earlier.
pub open spec fn after_diamond(
    before: Canvas,
    cx: int,
    cy: int,
    half_width: int,
    half_height: int,
    base: Color,
    dither: Color,
    a: int,
    b: int,
) -> Option<Color> {
    let (top_x, top_y) = (cx, cy - half_height);
    let (right_x, right_y) = (cx + half_width, cy);
    let (bottom_x, bottom_y) = (cx, cy + half_height);
    let (left_x, left_y) = (cx - half_width, cy);
    if before.inside(a, b) && on_line(right_x, right_y, bottom_x, bottom_y, a, b) {
        Some(floor_dark())
    } else if before.inside(a, b) && on_line(left_x, left_y, bottom_x, bottom_y, a, b) {
        Some(outline_color_spec(before.is_light()))
    } else if before.inside(a, b) && on_line(top_x, top_y, right_x, right_y, a, b) {
        Some(floor_dither())
    } else if before.inside(a, b) && on_line(top_x, top_y, left_x, left_y, a, b) {
        Some(floor_dark())
    } else {
        after_diamond_fill(before, cx, cy, half_width, half_height, base, dither, a, b)
    }
}

/// Draws a floor diamond: filled, with lit and shaded edges.
pub fn draw_diamond(canvas: &mut Canvas, cx: i32, cy: i32, half_width: i32, half_height: i32, base: Color, dither: Color)
    requires
        old(canvas).wf(),
        diamond_edges_fit(cx as int, cy as int, half_width as int, half_height as int),
    ensures
        final(canvas).wf(),
        final(canvas).geometry_spec() == old(canvas).geometry_spec(),
        final(canvas).is_light() == old(canvas).is_light(),
        forall|a: int, b: int|
            #[trigger] final(canvas).at(a, b) == after_diamond(
                *old(canvas),
                cx as int,
                cy as int,
                half_width as int,
                half_height as int,
                base,
                dither,
                a,
                b,
            ),
{
    let ghost before = *canvas;
    let outline = outline_color(canvas);
    fill_diamond(canvas, cx, cy, half_width, half_height, base, dither);
    let top = (cx, cy - half_height);
    let right = (cx + half_width, cy);
    let bottom = (cx, cy + half_height);
    let left = (cx - half_width, cy);
    draw_line(canvas, top.0, top.1, left.0, left.1, Color::Rgb(156, 135, 99));
    draw_line(canvas, top.0, top.1, right.0, right.1, Color::Rgb(192, 170, 130));
    draw_line(canvas, left.0, left.1, bottom.0, bottom.1, outline);
    draw_line(canvas, right.0, right.1, bottom.0, bottom.1, Color::Rgb(156, 135, 99));
}

} // verus!
