use theywork_render::backdrop::{draw_isometric_backdrop, draw_wall_window};
use theywork_render::canvas::{Canvas, PixelEncoding};
use theywork_render::color::{blend_color, daylight_amount, Color};
use theywork_render::iso::{floor_corners, make_grid};

const BACKGROUND: Color = Color::Rgb(24, 26, 29);
const WALL: Color = Color::Rgb(64, 68, 72);
const RIGHT_WALL: Color = Color::Rgb(43, 37, 66);
const OUTLINE: Color = Color::Rgb(13, 11, 20);
const TITLE_COLOR: Color = Color::Rgb(184, 231, 222);
const ACCENT: Color = Color::Rgb(128, 185, 255);

fn along(from: (i32, i32), to: (i32, i32), per_hundred: i32, rise: i32) -> (usize, usize) {
    (
        (from.0 + (to.0 - from.0) * per_hundred / 100) as usize,
        (from.1 + (to.1 - from.1) * per_hundred / 100 - rise) as usize,
    )
}

#[test]
fn backdrops_paint_walls_windows_and_background() {
    let grid = make_grid(160, 88, 6, 4);
    let mut canvas = Canvas::with_encoding(160, 88, PixelEncoding::HalfBlocks);
    let now = 45_000;
    draw_isometric_backdrop(&mut canvas, grid, now);
    let corners = floor_corners(grid);
    let (back, right, left) = (corners[0], corners[1], corners[3]);
    let height = grid.wall_height;
    assert_eq!(canvas.pixel(0, 87), Some(BACKGROUND));
    assert_eq!(canvas.pixel(back.0 as usize, (back.1 - height) as usize), Some(OUTLINE));
    let (x, y) = along(back, left, 5, height / 2);
    assert_eq!(canvas.pixel(x, y), Some(WALL));
    let (x, y) = along(back, right, 5, height / 2);
    assert_eq!(canvas.pixel(x, y), Some(RIGHT_WALL));
    let glass = blend_color(TITLE_COLOR, ACCENT, daylight_amount(now) / 3);
    let (x, y) = along(back, left, 35, height / 2);
    assert_eq!(canvas.pixel(x, y), Some(glass));
    assert!((0..160).all(|x| (0..88).all(|y| canvas.pixel(x, y).is_some())));
}

#[test]
fn low_walls_and_empty_spans_draw_no_window() {
    let mut canvas = Canvas::with_encoding(40, 40, PixelEncoding::HalfBlocks);
    draw_wall_window(&mut canvas, (30, 30), (5, 20), 5, 2, 8, 0, TITLE_COLOR);
    draw_wall_window(&mut canvas, (30, 30), (5, 20), 12, 6, 6, 0, TITLE_COLOR);
    assert!((0..40).all(|x| (0..40).all(|y| canvas.pixel(x, y).is_none())));
    draw_wall_window(&mut canvas, (30, 30), (5, 20), 12, 2, 8, 0, TITLE_COLOR);
    assert!((0..40).any(|x| (0..40).any(|y| canvas.pixel(x, y) == Some(TITLE_COLOR))));
}
