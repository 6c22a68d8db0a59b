//! The back of the isometric room: its two walls and their windows.
use vstd::prelude::*;
use crate::canvas::Canvas;
use crate::color::{blend_color, blend_color_spec, daylight_amount, daylight_spec, Color};
use crate::iso::{
    floor_corners, floor_points, grid_in_range, trunc_div, wall_point, wall_point_fits, wall_point_spec, IsoGrid,
};
use crate::polygon::{fill_polygon, in_filled_row, polygon_fits};
use crate::shapes::{draw_line, draw_polygon, line_fits, on_line, on_outline, outline_color, outline_color_spec, outline_edges_fit};

verus! {

pub open spec fn as_point(p: (int, int)) -> (i32, i32) {
    (p.0 as i32, p.1 as i32)
}

pub open spec fn as_ints(p: (i32, i32)) -> (int, int) {
    (p.0 as int, p.1 as int)
}

/// A point on the wall from `start` to `end`: `along` tenths of the way,
/// `rise` pixels up.
pub open spec fn on_wall(start: (i32, i32), end: (i32, i32), along: int, rise: int) -> (i32, i32) {
    as_point(wall_point_spec(as_ints(start), as_ints(end), along, rise))
}

/// A window's frame: from `start_along` to `end_along` tenths along the
/// wall, from two pixels up to one under the wall's top.
pub open spec fn window_frame(start: (i32, i32), end: (i32, i32), wall_height: int, start_along: int, end_along: int) -> Seq<(i32, i32)> {
    let top = wall_height - 1;
    seq![
        on_wall(start, end, start_along, top),
        on_wall(start, end, end_along, top),
        on_wall(start, end, end_along, 2),
        on_wall(start, end, start_along, 2),
    ]
}

/// A window's glass: a tenth in from each side of the frame, three pixels
/// up to two under the wall's top.
pub open spec fn window_glass(start: (i32, i32), end: (i32, i32), wall_height: int, start_along: int, end_along: int) -> Seq<(i32, i32)> {
    let top = wall_height - 2;
    seq![
        on_wall(start, end, start_along + 1, top),
        on_wall(start, end, end_along - 1, top),
        on_wall(start, end, end_along - 1, 3),
        on_wall(start, end, start_along + 1, 3),
    ]
}

/// The window's middle bar, from the glass's top to its bottom.
pub open spec fn window_bar(start: (i32, i32), end: (i32, i32), wall_height: int, start_along: int, end_along: int) -> ((i32, i32), (i32, i32)) {
    let middle = trunc_div(start_along + end_along, 2);
    (on_wall(start, end, middle, wall_height - 2), on_wall(start, end, middle, 3))
}

/// The glass's colour: the window's colour lit by up to a third of the
/// daylight's blue.
pub open spec fn glass_color(color: Color, now: i64) -> Color {
    blend_color_spec(color, Color::Rgb(128, 185, 255), (daylight_spec(now) / 3) as u16)
}

/// Windows wide and tall enough to draw.
pub open spec fn window_shown(wall_height: int, start_along: int, end_along: int) -> bool {
    wall_height >= 6 && end_along > start_along
}

/// Windows whose points and edges fit the pixel arithmetic.
pub open spec fn wall_window_fits(
    start: (i32, i32),
    end: (i32, i32),
    wall_height: int,
    start_along: int,
    end_along: int,
) -> bool {
    window_shown(wall_height, start_along, end_along) ==> {
        let (s, e) = (as_ints(start), as_ints(end));
        let middle = trunc_div(start_along + end_along, 2);
        let bar = window_bar(start, end, wall_height, start_along, end_along);
        &&& wall_height <= i32::MAX
        &&& fits_pair(start_along, end_along)
        &&& wall_point_fits(s, e, start_along, wall_height - 1)
        &&& wall_point_fits(s, e, end_along, wall_height - 1)
        &&& wall_point_fits(s, e, end_along, 2)
        &&& wall_point_fits(s, e, start_along, 2)
        &&& wall_point_fits(s, e, start_along + 1, wall_height - 2)
        &&& wall_point_fits(s, e, end_along - 1, wall_height - 2)
        &&& wall_point_fits(s, e, end_along - 1, 3)
        &&& wall_point_fits(s, e, start_along + 1, 3)
        &&& wall_point_fits(s, e, middle, wall_height - 2)
        &&& wall_point_fits(s, e, middle, 3)
        &&& polygon_fits(window_frame(start, end, wall_height, start_along, end_along))
        &&& outline_edges_fit(window_frame(start, end, wall_height, start_along, end_along))
        &&& polygon_fits(window_glass(start, end, wall_height, start_along, end_along))
        &&& outline_edges_fit(window_glass(start, end, wall_height, start_along, end_along))
        &&& line_fits(bar.0.0 as int, bar.0.1 as int, bar.1.0 as int, bar.1.1 as int)
    }
}

pub open spec fn fits_pair(a: int, b: int) -> bool {
    i32::MIN <= a + b <= i32::MAX && i32::MIN <= a + 1 <= i32::MAX && i32::MIN <= b - 1 <= i32::MAX
}

/// The colour a window on the wall from `start` to `end` gives `(a, b)`,
/// if any: the dark frame outlined in the theme's colour, the glass inside
/// it outlined in the window's colour, and the middle bar over both.
pub open spec fn wall_window_paint(
    light: bool,
    start: (i32, i32),
    end: (i32, i32),
    wall_height: int,
    start_along: int,
    end_along: int,
    now: i64,
    color: Color,
    a: int,
    b: int,
) -> Option<Color> {
    let frame = window_frame(start, end, wall_height, start_along, end_along);
    let glass = window_glass(start, end, wall_height, start_along, end_along);
    let bar = window_bar(start, end, wall_height, start_along, end_along);
    if !window_shown(wall_height, start_along, end_along) {
        None
    } else if on_line(bar.0.0 as int, bar.0.1 as int, bar.1.0 as int, bar.1.1 as int, a, b) {
        Some(Color::Rgb(43, 37, 66))
    } else if on_outline(glass, a, b) {
        Some(color)
    } else if in_filled_row(glass, b, a) {
        Some(glass_color(color, now))
    } else if on_outline(frame, a, b) {
        Some(outline_color_spec(light))
    } else if in_filled_row(frame, b, a) {
        Some(Color::Rgb(43, 37, 66))
    } else {
        None
    }
}

/// The pixel at `(a, b)` after a wall window is drawn on `before`.
pub open spec fn after_wall_window(
    before: Canvas,
    start: (i32, i32),
    end: (i32, i32),
    wall_height: int,
    start_along: int,
    end_along: int,
    now: i64,
    color: Color,
    a: int,
    b: int,
) -> Option<Color> {
    let paint = wall_window_paint(before.is_light(), start, end, wall_height, start_along, end_along, now, color, a, b);
    if before.inside(a, b) && paint is Some {
        paint
    } else {
        before.at(a, b)
    }
}

pub fn draw_wall_window(
    canvas: &mut Canvas,
    start: (i32, i32),
    end: (i32, i32),
    wall_height: i32,
    start_along: i32,
    end_along: i32,
    now: i64,
    window_color: Color,
)
    requires
        old(canvas).wf(),
        wall_window_fits(start, end, wall_height as int, start_along as int, end_along as int),
    ensures
        final(canvas).wf(),
        final(canvas).geometry_spec() == old(canvas).geometry_spec(),
        final(canvas).is_light() == old(canvas).is_light(),
        forall|a: int, b: int|
            #[trigger] final(canvas).at(a, b) == after_wall_window(
                *old(canvas),
                start,
                end,
                wall_height as int,
                start_along as int,
                end_along as int,
                now,
                window_color,
                a,
                b,
            ),
{
    if wall_height < 6 || end_along <= start_along {
        return;
    }
    let frame_top = wall_height - 1;
    let frame = [
        wall_point(start, end, start_along, frame_top),
        wall_point(start, end, end_along, frame_top),
        wall_point(start, end, end_along, 2),
        wall_point(start, end, start_along, 2),
    ];
    assert(frame@ =~= window_frame(start, end, wall_height as int, start_along as int, end_along as int));
    let outline = outline_color(canvas);
    fill_polygon(canvas, &frame, Color::Rgb(43, 37, 66));
    draw_polygon(canvas, &frame, outline);
    let inner_top = wall_height - 2;
    let inner_bottom: i32 = 3;
    let glass = [
        wall_point(start, end, start_along + 1, inner_top),
        wall_point(start, end, end_along - 1, inner_top),
        wall_point(start, end, end_along - 1, inner_bottom),
        wall_point(start, end, start_along + 1, inner_bottom),
    ];
    assert(glass@ =~= window_glass(start, end, wall_height as int, start_along as int, end_along as int));
    let daylight = daylight_amount(now);
    let sky = blend_color(window_color, Color::Rgb(128, 185, 255), daylight / 3);
    fill_polygon(canvas, &glass, sky);
    draw_polygon(canvas, &glass, window_color);
    let middle = (start_along + end_along) / 2;
    let top = wall_point(start, end, middle, inner_top);
    let bottom = wall_point(start, end, middle, inner_bottom);
    draw_line(canvas, top.0, top.1, bottom.0, bottom.1, Color::Rgb(43, 37, 66));
}

// ---------------------------------------------------------------------------
// The backdrop
// ---------------------------------------------------------------------------

/// The floor's back, right and left corners and the wall tops above them.
pub open spec fn wall_corners(g: IsoGrid) -> ((i32, i32), (i32, i32), (i32, i32), (i32, i32), (i32, i32), (i32, i32)) {
    let c = floor_points(g);
    let (back, right, left) = (c[0], c[1], c[3]);
    let h = g.wall_height as int;
    (
        back,
        right,
        left,
        (back.0, (back.1 - h) as i32),
        (left.0, (left.1 - h) as i32),
        (right.0, (right.1 - h) as i32),
    )
}

/// Grids and times whose backdrop fits the pixel arithmetic.
pub open spec fn backdrop_fits(g: IsoGrid, now: i64) -> bool {
    let (back, right, left, back_top, left_top, right_top) = wall_corners(g);
    let h = g.wall_height as int;
    &&& grid_in_range(g)
    &&& now as int + 3_400 <= i64::MAX
    &&& 0 <= h <= 1_000_000
    &&& polygon_fits(seq![back_top, back, left, left_top])
    &&& polygon_fits(seq![back_top, back, right, right_top])
    &&& line_fits(back_top.0 as int, back_top.1 as int, left_top.0 as int, left_top.1 as int)
    &&& line_fits(back_top.0 as int, back_top.1 as int, right_top.0 as int, right_top.1 as int)
    &&& line_fits(back_top.0 as int, back_top.1 as int, back.0 as int, back.1 as int)
    &&& wall_window_fits(back, left, h, 2, 8)
    &&& wall_window_fits(back, right, h, 2, 5)
    &&& wall_window_fits(back, right, h, 6, 9)
}

/// The colour of `(a, b)` in the backdrop: the windows (on the left wall
/// lit in the title colour, two on the right wall), over the wall lines,
/// over the two walls, over the background.
pub open spec fn backdrop_color(g: IsoGrid, light: bool, now: i64, a: int, b: int) -> Color {
    let (back, right, left, back_top, left_top, right_top) = wall_corners(g);
    let h = g.wall_height as int;
    let third = wall_window_paint(light, back, right, h, 6, 9, (now + 3_400) as i64, Color::Rgb(90, 169, 201), a, b);
    let second = wall_window_paint(light, back, right, h, 2, 5, (now + 1_700) as i64, Color::Rgb(90, 169, 201), a, b);
    let first = wall_window_paint(light, back, left, h, 2, 8, now, Color::Rgb(184, 231, 222), a, b);
    if third is Some {
        third->0
    } else if second is Some {
        second->0
    } else if first is Some {
        first->0
    } else if on_line(back_top.0 as int, back_top.1 as int, left_top.0 as int, left_top.1 as int, a, b)
        || on_line(back_top.0 as int, back_top.1 as int, right_top.0 as int, right_top.1 as int, a, b)
        || on_line(back_top.0 as int, back_top.1 as int, back.0 as int, back.1 as int, a, b)
        || on_line(left_top.0 as int, left_top.1 as int, left.0 as int, left.1 as int, a, b)
        || on_line(right_top.0 as int, right_top.1 as int, right.0 as int, right.1 as int, a, b) {
        outline_color_spec(light)
    } else if in_filled_row(seq![back_top, back, right, right_top], b, a) {
        Color::Rgb(43, 37, 66)
    } else if in_filled_row(seq![back_top, back, left, left_top], b, a) {
        Color::Rgb(64, 68, 72)
    } else {
        Color::Rgb(24, 26, 29)
    }
}

/// Paints the room's backdrop over the whole canvas.
#[verifier::rlimit(40)]
pub fn draw_isometric_backdrop(canvas: &mut Canvas, grid: IsoGrid, now: i64)
    requires
        old(canvas).wf(),
        backdrop_fits(grid, now),
    ensures
        final(canvas).wf(),
        final(canvas).geometry_spec() == old(canvas).geometry_spec(),
        final(canvas).is_light() == old(canvas).is_light(),
        forall|a: int, b: int|
            #[trigger] final(canvas).at(a, b) == if old(canvas).inside(a, b) {
                Some(backdrop_color(grid, old(canvas).is_light(), now, a, b))
            } else {
                None::<Color>
            },
{
    canvas.fill(Color::Rgb(24, 26, 29));
    let corners = floor_corners(grid);
    let back = corners[0];
    let right = corners[1];
    let left = corners[3];
    let wall_height = grid.wall_height;
    let back_top = (back.0, back.1 - wall_height);
    let left_top = (left.0, left.1 - wall_height);
    let right_top = (right.0, right.1 - wall_height);
    let left_wall = [back_top, back, left, left_top];
    let right_wall = [back_top, back, right, right_top];
    assert(left_wall@ =~= seq![back_top, back, left, left_top]);
    assert(right_wall@ =~= seq![back_top, back, right, right_top]);
    fill_polygon(canvas, &left_wall, Color::Rgb(64, 68, 72));
    fill_polygon(canvas, &right_wall, Color::Rgb(43, 37, 66));
    let outline = outline_color(canvas);
    draw_line(canvas, back_top.0, back_top.1, left_top.0, left_top.1, outline);
    draw_line(canvas, back_top.0, back_top.1, right_top.0, right_top.1, outline);
    draw_line(canvas, back_top.0, back_top.1, back.0, back.1, outline);
    draw_line(canvas, left_top.0, left_top.1, left.0, left.1, outline);
    draw_line(canvas, right_top.0, right_top.1, right.0, right.1, outline);
    draw_wall_window(canvas, back, left, wall_height, 2, 8, now, Color::Rgb(184, 231, 222));
    draw_wall_window(canvas, back, right, wall_height, 2, 5, now + 1_700, Color::Rgb(90, 169, 201));
    draw_wall_window(canvas, back, right, wall_height, 6, 9, now + 3_400, Color::Rgb(90, 169, 201));
}

} // verus!
