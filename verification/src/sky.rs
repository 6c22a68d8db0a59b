//! The sky seen through the office windows: a day and night gradient, a
//! drifting cloud and, at night, a few stars.
use vstd::prelude::*;
use crate::canvas::{in_rect, Canvas};
use crate::color::{blend_color, blend_color_spec, daylight_amount, daylight_spec, sky_color, sky_color_spec, Color};
use crate::layout::max;
use crate::shapes::{draw_line, draw_rect_outline, on_border, on_line, outline_color, outline_color_spec, outline_fits, set_pixel};

verus! {

/// How many milliseconds the cloud takes to drift one pixel.
pub const CLOUD_DRIFT_MS: u64 = 220;

/// Sky areas whose pixel arithmetic fits: the area and the cloud's reach
/// beyond it stay within `i32`, and the gradient's row arithmetic within
/// `u32`.
pub open spec fn sky_fits(x: int, y: int, width: int, height: int) -> bool {
    width > 0 && height > 0 ==> {
        &&& i32::MIN <= x - 7
        &&& i32::MIN < y
        &&& x + width + 16 <= i32::MAX
        &&& width + 16 <= i32::MAX
        &&& y + height <= i32::MAX
        &&& (height - 1) * 255 <= u32::MAX
    }
}

/// Milliseconds since the start, negative times counted as zero.
pub open spec fn elapsed(now: i64) -> int {
    max(now as int, 0)
}

/// The left end of the cloud: drifting right one pixel every
/// `CLOUD_DRIFT_MS`, entering seven pixels left of the area and wrapping
/// round ten pixels past its width.
pub open spec fn cloud_left(x: int, width: int, now: i64) -> int {
    x - 7 + (elapsed(now) / (CLOUD_DRIFT_MS as int)) % (width + 10)
}

/// The cloud's lower row: a third of the way down.
pub open spec fn cloud_row(y: int, height: int) -> int {
    y + height / 3
}

/// The cloud's colour: the wall's shade blended towards white with the
/// daylight.
pub open spec fn cloud_color(now: i64) -> Color {
    blend_color_spec(Color::Rgb(64, 68, 72), Color::Rgb(245, 246, 248), daylight_spec(now))
}

/// Whether `(a, b)` is part of the cloud, within the area's columns: eight
/// pixels of its lower row, and five of the row above when that row is
/// still in the area.
pub open spec fn on_cloud(x: int, y: int, width: int, height: int, now: i64, a: int, b: int) -> bool {
    let left = cloud_left(x, width, now);
    let row = cloud_row(y, height);
    let offset = a - left;
    &&& x <= a < x + width
    &&& {
        ||| b == row && 0 <= offset < 8
        ||| b == row - 1 && row - 1 >= y && (offset == 1 || offset == 2 || offset == 4 || offset == 5 || offset == 6)
    }
}

/// Star `i`'s position: stepping across and down the area over time.
pub open spec fn star_at(x: int, y: int, width: int, height: int, now: i64, i: int) -> (int, int) {
    (x + (i * 17 + elapsed(now) / 900) % width, y + (i * 5 + elapsed(now) / 1600) % height)
}

/// Whether one of the four stars is at `(a, b)`; stars come out while the
/// daylight is under 150.
pub open spec fn on_star(x: int, y: int, width: int, height: int, now: i64, a: int, b: int) -> bool {
    &&& daylight_spec(now) < 150
    &&& {
        ||| star_at(x, y, width, height, now, 0) == (a, b)
        ||| star_at(x, y, width, height, now, 1) == (a, b)
        ||| star_at(x, y, width, height, now, 2) == (a, b)
        ||| star_at(x, y, width, height, now, 3) == (a, b)
    }
}

/// The stars' colour: white fading into the day sky.
pub open spec fn star_color(now: i64) -> Color {
    blend_color_spec(Color::Rgb(245, 246, 248), Color::Rgb(88, 214, 232), daylight_spec(now))
}

/// The colour the sky gives `(a, b)`, if any: stars over the cloud over
/// the gradient; nothing outside the area or for an empty area.
pub open spec fn sky_paint(x: int, y: int, width: int, height: int, now: i64, a: int, b: int) -> Option<Color> {
    if width <= 0 || height <= 0 {
        None
    } else if on_star(x, y, width, height, now, a, b) {
        Some(star_color(now))
    } else if on_cloud(x, y, width, height, now, a, b) {
        Some(cloud_color(now))
    } else if in_rect(x, y, width, height, a, b) {
        Some(sky_color_spec(now, (b - y) as usize, height as usize))
    } else {
        None
    }
}

/// The pixel at `(a, b)` after the sky is drawn on `before`.
pub open spec fn after_sky(before: Canvas, x: int, y: int, width: int, height: int, now: i64, a: int, b: int) -> Option<Color> {
    if before.inside(a, b) && sky_paint(x, y, width, height, now, a, b) is Some {
        sky_paint(x, y, width, height, now, a, b)
    } else {
        before.at(a, b)
    }
}

/// The sky never paints outside its area: stars, cloud and gradient all
/// stay within it.
pub proof fn law_sky_stays_in_its_area(x: int, y: int, width: int, height: int, now: i64, a: int, b: int)
    ensures
        sky_paint(x, y, width, height, now, a, b) is Some ==> in_rect(x, y, width, height, a, b),
{
    if width > 0 && height > 0 {
        assert(0 <= (0 * 17 + elapsed(now) / 900) % width < width);
        assert(0 <= (1 * 17 + elapsed(now) / 900) % width < width);
        assert(0 <= (2 * 17 + elapsed(now) / 900) % width < width);
        assert(0 <= (3 * 17 + elapsed(now) / 900) % width < width);
        assert(0 <= (0 * 5 + elapsed(now) / 1600) % height < height);
        assert(0 <= (1 * 5 + elapsed(now) / 1600) % height < height);
        assert(0 <= (2 * 5 + elapsed(now) / 1600) % height < height);
        assert(0 <= (3 * 5 + elapsed(now) / 1600) % height < height);
        assert(height / 3 < height);
    }
}

/// Paints the gradient: each row of the area in its sky colour.
fn fill_sky_rows(canvas: &mut Canvas, x: i32, y: i32, width: i32, height: i32, now: i64)
    requires
        old(canvas).wf(),
        width > 0,
        height > 0,
        sky_fits(x as int, y as int, width as int, height as int),
    ensures
        final(canvas).wf(),
        final(canvas).geometry_spec() == old(canvas).geometry_spec(),
        final(canvas).is_light() == old(canvas).is_light(),
        forall|a: int, b: int|
            #[trigger] final(canvas).at(a, b) == if old(canvas).inside(a, b) && in_rect(x as int, y as int, width as int, height as int, a, b) {
                Some(sky_color_spec(now, (b - y) as usize, height as usize))
            } else {
                old(canvas).at(a, b)
            },
{
    let ghost before = *canvas;
    let mut row: i32 = 0;
    while row < height
        invariant
            0 <= row <= height,
            width > 0,
            height > 0,
            sky_fits(x as int, y as int, width as int, height as int),
            canvas.wf(),
            canvas.geometry_spec() == before.geometry_spec(),
            canvas.is_light() == before.is_light(),
            forall|a: int, b: int|
                #[trigger] canvas.at(a, b) == if before.inside(a, b) && in_rect(x as int, y as int, width as int, row as int, a, b) {
                    Some(sky_color_spec(now, (b - y) as usize, height as usize))
                } else {
                    before.at(a, b)
                },
        decreases height - row,
    {
        assert((if (row as usize) < (height as usize) - 1 {
            row as usize
        } else {
            ((height as usize) - 1) as usize
        }) as u32 * 255 <= u32::MAX);
        let color = sky_color(now, row as usize, height as usize);
        let mut column: i32 = 0;
        while column < width
            invariant
                0 <= row < height,
                0 <= column <= width,
                sky_fits(x as int, y as int, width as int, height as int),
                color == sky_color_spec(now, row as usize, height as usize),
                canvas.wf(),
                canvas.geometry_spec() == before.geometry_spec(),
                canvas.is_light() == before.is_light(),
                forall|a: int, b: int|
                    #[trigger] canvas.at(a, b) == if before.inside(a, b) && (in_rect(x as int, y as int, width as int, row as int, a, b)
                        || (b == y + row && x <= a < x + column)) {
                        Some(sky_color_spec(now, (b - y) as usize, height as usize))
                    } else {
                        before.at(a, b)
                    },
            decreases width - column,
        {
            set_pixel(canvas, x + column, y + row, color);
            column += 1;
        }
        row += 1;
    }
}

/// Paints the cloud over the area.
fn paint_cloud(canvas: &mut Canvas, x: i32, y: i32, width: i32, height: i32, now: i64)
    requires
        old(canvas).wf(),
        width > 0,
        height > 0,
        sky_fits(x as int, y as int, width as int, height as int),
    ensures
        final(canvas).wf(),
        final(canvas).geometry_spec() == old(canvas).geometry_spec(),
        final(canvas).is_light() == old(canvas).is_light(),
        forall|a: int, b: int|
            #[trigger] final(canvas).at(a, b) == if old(canvas).inside(a, b) && on_cloud(x as int, y as int, width as int, height as int, now, a, b) {
                Some(cloud_color(now))
            } else {
                old(canvas).at(a, b)
            },
{
    let ghost before = *canvas;
    let daylight = daylight_amount(now);
    let color = blend_color(Color::Rgb(64, 68, 72), Color::Rgb(245, 246, 248), daylight);
    let span: u64 = width as u64 + 10;
    let elapsed_ms: u64 = if now > 0 {
        now as u64
    } else {
        0
    };
    let drift: u64 = elapsed_ms / CLOUD_DRIFT_MS % span;
    let left: i32 = x - 7 + drift as i32;
    let row: i32 = y + height / 3;
    assert(left as int == cloud_left(x as int, width as int, now));
    let mut offset: i32 = 0;
    while offset < 8
        invariant
            0 <= offset <= 8,
            left as int == cloud_left(x as int, width as int, now),
            row as int == cloud_row(y as int, height as int),
            x - 7 <= left <= x + width + 2,
            sky_fits(x as int, y as int, width as int, height as int),
            width > 0,
            height > 0,
            color == cloud_color(now),
            canvas.wf(),
            canvas.geometry_spec() == before.geometry_spec(),
            canvas.is_light() == before.is_light(),
            forall|a: int, b: int|
                #[trigger] canvas.at(a, b) == if before.inside(a, b) && x <= a < x + width && b == row && left <= a < left + offset {
                    Some(cloud_color(now))
                } else {
                    before.at(a, b)
                },
        decreases 8 - offset,
    {
        if !(left + offset < x || left + offset >= x + width) {
            set_pixel(canvas, left + offset, row, color);
        }
        offset += 1;
    }
    let ghost lower = *canvas;
    if row > y {
        let mut k: usize = 0;
        while k < 5
            invariant
                0 <= k <= 5,
                left as int == cloud_left(x as int, width as int, now),
                row as int == cloud_row(y as int, height as int),
                row - 1 >= y,
                x - 7 <= left <= x + width + 2,
                sky_fits(x as int, y as int, width as int, height as int),
                width > 0,
                color == cloud_color(now),
                canvas.wf(),
                canvas.geometry_spec() == before.geometry_spec(),
                canvas.is_light() == before.is_light(),
                forall|a: int, b: int|
                    #[trigger] canvas.at(a, b) == if before.inside(a, b) && x <= a < x + width && b == row - 1 && (
                    (k > 0 && a - left == 1) || (k > 1 && a - left == 2) || (k > 2 && a - left == 4) || (k > 3 && a - left == 5)
                        || (k > 4 && a - left == 6))
                        {
                        Some(cloud_color(now))
                    } else {
                        lower.at(a, b)
                    },
            decreases 5 - k,
        {
            let offset: i32 = if k == 0 {
                1
            } else if k == 1 {
                2
            } else if k == 2 {
                4
            } else if k == 3 {
                5
            } else {
                6
            };
            if !(left + offset < x || left + offset >= x + width) {
                set_pixel(canvas, left + offset, row - 1, color);
            }
            k += 1;
        }
    }
}

/// Paints the stars at night.
fn paint_stars(canvas: &mut Canvas, x: i32, y: i32, width: i32, height: i32, now: i64)
    requires
        old(canvas).wf(),
        width > 0,
        height > 0,
        sky_fits(x as int, y as int, width as int, height as int),
    ensures
        final(canvas).wf(),
        final(canvas).geometry_spec() == old(canvas).geometry_spec(),
        final(canvas).is_light() == old(canvas).is_light(),
        forall|a: int, b: int|
            #[trigger] final(canvas).at(a, b) == if old(canvas).inside(a, b) && on_star(x as int, y as int, width as int, height as int, now, a, b) {
                Some(star_color(now))
            } else {
                old(canvas).at(a, b)
            },
{
    let daylight = daylight_amount(now);
    if daylight >= 150 {
        return;
    }
    let ghost before = *canvas;
    let color = blend_color(Color::Rgb(245, 246, 248), Color::Rgb(88, 214, 232), daylight);
    let elapsed_ms: u64 = if now > 0 {
        now as u64
    } else {
        0
    };
    let w: u64 = width as u64;
    let h: u64 = height as u64;
    let mut index: u64 = 0;
    while index < 4
        invariant
            0 <= index <= 4,
            elapsed_ms as int == elapsed(now),
            w == width,
            h == height,
            width > 0,
            height > 0,
            daylight_spec(now) < 150,
            sky_fits(x as int, y as int, width as int, height as int),
            color == star_color(now),
            canvas.wf(),
            canvas.geometry_spec() == before.geometry_spec(),
            canvas.is_light() == before.is_light(),
            forall|a: int, b: int|
                #[trigger] canvas.at(a, b) == if before.inside(a, b) && (
                (index > 0 && star_at(x as int, y as int, width as int, height as int, now, 0) == (a, b))
                    || (index > 1 && star_at(x as int, y as int, width as int, height as int, now, 1) == (a, b))
                    || (index > 2 && star_at(x as int, y as int, width as int, height as int, now, 2) == (a, b))
                    || (index > 3 && star_at(x as int, y as int, width as int, height as int, now, 3) == (a, b))) {
                    Some(star_color(now))
                } else {
                    before.at(a, b)
                },
        decreases 4 - index,
    {
        let star_x = x + ((index * 17 + elapsed_ms / 900) % w) as i32;
        let star_y = y + ((index * 5 + elapsed_ms / 1600) % h) as i32;
        assert((star_x as int, star_y as int) == star_at(x as int, y as int, width as int, height as int, now, index as int));
        set_pixel(canvas, star_x, star_y, color);
        index += 1;
    }
}

/// Draws the sky over the area at `(x, y)` of `width` by `height` pixels.
pub fn draw_sky_area(canvas: &mut Canvas, x: i32, y: i32, width: i32, height: i32, now: i64)
    requires
        old(canvas).wf(),
        sky_fits(x as int, y as int, width as int, height as int),
    ensures
        final(canvas).wf(),
        final(canvas).geometry_spec() == old(canvas).geometry_spec(),
        final(canvas).is_light() == old(canvas).is_light(),
        forall|a: int, b: int|
            #[trigger] final(canvas).at(a, b) == after_sky(*old(canvas), x as int, y as int, width as int, height as int, now, a, b),
{
    if width <= 0 || height <= 0 {
        return;
    }
    fill_sky_rows(canvas, x, y, width, height, now);
    paint_cloud(canvas, x, y, width, height, now);
    paint_stars(canvas, x, y, width, height, now);
}

/// Windows whose frame, sky and bars fit the pixel arithmetic.
pub open spec fn window_fits(x: int, y: int, width: int, height: int) -> bool {
    width >= 5 && height >= 4 ==> {
        &&& outline_fits(x, y, width, height)
        &&& sky_fits(x + 1, y + 1, width - 2, height - 2)
    }
}

/// The pixel at `(a, b)` after a window is drawn on `before`: a dark frame
/// round the sky with an outline in the theme's colour, a central bar and
/// a lit sill along the bottom of the glass. Windows under five by four
/// pixels are not drawn.
pub open spec fn after_window(before: Canvas, x: int, y: int, width: int, height: int, now: i64, a: int, b: int) -> Option<Color> {
    let middle = x + width / 2;
    if width < 5 || height < 4 || !before.inside(a, b) {
        before.at(a, b)
    } else if on_line(x + 1, y + height - 2, x + width - 2, y + height - 2, a, b) {
        Some(Color::Rgb(90, 169, 201))
    } else if on_line(middle, y + 1, middle, y + height - 2, a, b) {
        Some(Color::Rgb(43, 37, 66))
    } else if on_border(x, y, width, height, a, b) {
        Some(outline_color_spec(before.is_light()))
    } else if sky_paint(x + 1, y + 1, width - 2, height - 2, now, a, b) is Some {
        sky_paint(x + 1, y + 1, width - 2, height - 2, now, a, b)
    } else if in_rect(x, y, width, height, a, b) {
        Some(Color::Rgb(43, 37, 66))
    } else {
        before.at(a, b)
    }
}

pub fn draw_window(canvas: &mut Canvas, x: i32, y: i32, width: i32, height: i32, now: i64)
    requires
        old(canvas).wf(),
        window_fits(x as int, y as int, width as int, height as int),
    ensures
        final(canvas).wf(),
        final(canvas).geometry_spec() == old(canvas).geometry_spec(),
        final(canvas).is_light() == old(canvas).is_light(),
        forall|a: int, b: int|
            #[trigger] final(canvas).at(a, b) == after_window(*old(canvas), x as int, y as int, width as int, height as int, now, a, b),
{
    if width < 5 || height < 4 {
        return;
    }
    let frame = Color::Rgb(43, 37, 66);
    let outline = outline_color(canvas);
    canvas.fill_rect(x, y, width, height, frame);
    draw_sky_area(canvas, x + 1, y + 1, width - 2, height - 2, now);
    draw_rect_outline(canvas, x, y, width, height, outline);
    let middle = x + width / 2;
    assert((height - 3) * (height - 3) <= (height - 1) * (height - 1)) by (nonlinear_arith)
        requires
            height >= 4,
    ;
    assert((width - 3) * (width - 3) <= (width - 1) * (width - 1)) by (nonlinear_arith)
        requires
            width >= 5,
    ;
    draw_line(canvas, middle, y + 1, middle, y + height - 2, frame);
    draw_line(canvas, x + 1, y + height - 2, x + width - 2, y + height - 2, Color::Rgb(90, 169, 201));
}

} // verus!
