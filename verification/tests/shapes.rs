use theywork_render::canvas::{Canvas, PixelEncoding};
use theywork_render::color::Color;
use theywork_render::shapes::{
    draw_diamond, draw_line, draw_polygon, draw_rect_outline, fill_diamond, outline_color, set_pixel,
};

const FLOOR_LIGHT: Color = Color::Rgb(220, 201, 164);
const FLOOR_DARK: Color = Color::Rgb(156, 135, 99);
const FLOOR_DITHER: Color = Color::Rgb(192, 170, 130);
const LIGHT_INK: Color = Color::Rgb(28, 31, 36);
const OUTLINE: Color = Color::Rgb(13, 11, 20);
const RED: Color = Color::Rgb(255, 0, 0);

fn canvas(width: usize, height: usize) -> Canvas {
    Canvas::with_encoding(width, height, PixelEncoding::HalfBlocks)
}

fn painted(canvas: &Canvas) -> Vec<(usize, usize)> {
    let mut points = Vec::new();
    for y in 0..canvas.height() {
        for x in 0..canvas.width() {
            if canvas.pixel(x, y).is_some() {
                points.push((x, y));
            }
        }
    }
    points
}

#[test]
fn light_mode_keeps_floor_outlines_dark() {
    let mut canvas = canvas(20, 20);
    canvas.set_light_mode(true);
    draw_diamond(&mut canvas, 10, 10, 4, 2, FLOOR_LIGHT, FLOOR_DITHER);
    assert_eq!(canvas.pixel(6, 10), Some(LIGHT_INK));
}

#[test]
fn dark_mode_outlines_use_the_room_outline() {
    let mut canvas = canvas(20, 20);
    assert_eq!(outline_color(&canvas), OUTLINE);
    draw_diamond(&mut canvas, 10, 10, 4, 2, FLOOR_LIGHT, FLOOR_DITHER);
    assert_eq!(canvas.pixel(6, 10), Some(OUTLINE));
    assert_eq!(canvas.pixel(14, 10), Some(FLOOR_DARK));
    assert_eq!(canvas.pixel(10, 12), Some(FLOOR_DARK));
    assert_eq!(canvas.pixel(12, 9), Some(FLOOR_DITHER));
    assert_eq!(canvas.pixel(10, 10), Some(FLOOR_DITHER));
    assert_eq!(canvas.pixel(11, 10), Some(FLOOR_LIGHT));
    assert_eq!(canvas.pixel(10, 13), None);
}

#[test]
fn off_canvas_pixels_are_ignored() {
    let mut canvas = canvas(4, 4);
    set_pixel(&mut canvas, -1, 2, RED);
    set_pixel(&mut canvas, 2, -1, RED);
    set_pixel(&mut canvas, 4, 0, RED);
    assert!(painted(&canvas).is_empty());
    set_pixel(&mut canvas, 3, 3, RED);
    assert_eq!(painted(&canvas), vec![(3, 3)]);
}

#[test]
fn lines_take_one_point_per_step_of_the_longer_extent() {
    let mut canvas = canvas(10, 10);
    draw_line(&mut canvas, 0, 0, 6, 3, RED);
    assert_eq!(
        painted(&canvas),
        vec![(0, 0), (1, 0), (2, 1), (3, 1), (4, 2), (5, 2), (6, 3)]
    );
    let mut single = canvas_with_point();
    draw_line(&mut single, 2, 2, 2, 2, RED);
    assert_eq!(painted(&single), vec![(2, 2)]);
}

fn canvas_with_point() -> Canvas {
    canvas(5, 5)
}

#[test]
fn reversed_lines_round_towards_their_start() {
    let mut canvas = canvas(10, 10);
    draw_line(&mut canvas, 6, 3, 0, 0, RED);
    assert_eq!(
        painted(&canvas),
        vec![(0, 0), (1, 1), (2, 1), (3, 2), (4, 2), (5, 3), (6, 3)]
    );
}

#[test]
fn rectangle_outlines_paint_exactly_the_border() {
    let mut canvas = canvas(8, 8);
    draw_rect_outline(&mut canvas, 1, 2, 4, 3, RED);
    let mut expected = Vec::new();
    for y in 2..5 {
        for x in 1..5 {
            if x == 1 || x == 4 || y == 2 || y == 4 {
                expected.push((x, y));
            }
        }
    }
    assert_eq!(painted(&canvas), expected);

    let mut empty = canvas_with_point();
    draw_rect_outline(&mut empty, 1, 1, 0, 3, RED);
    draw_rect_outline(&mut empty, 1, 1, 3, -1, RED);
    assert!(painted(&empty).is_empty());
}

#[test]
fn polygons_close_back_to_their_first_point() {
    let mut canvas = canvas(8, 8);
    draw_polygon(&mut canvas, &[(0, 0), (4, 0), (4, 4)], RED);
    for step in 0..=4 {
        assert_eq!(canvas.pixel(step, 0), Some(RED));
        assert_eq!(canvas.pixel(4, step), Some(RED));
        assert_eq!(canvas.pixel(step, step), Some(RED));
    }
    assert_eq!(canvas.pixel(1, 2), None);
    assert_eq!(painted(&canvas).len(), 12);

    let mut lone = canvas_with_point();
    draw_polygon(&mut lone, &[(1, 1)], RED);
    assert!(painted(&lone).is_empty());
}

#[test]
fn filled_diamonds_dither_every_fifth_diagonal() {
    let mut canvas = canvas(21, 21);
    fill_diamond(&mut canvas, 10, 10, 4, 2, FLOOR_LIGHT, FLOOR_DITHER);
    let points = painted(&canvas);
    for &(x, y) in &points {
        let dx = x as i32 - 10;
        let dy = y as i32 - 10;
        assert!(dx.abs() * 2 + dy.abs() * 4 <= 8);
        let expected = if (dx + dy).rem_euclid(5) == 0 {
            FLOOR_DITHER
        } else {
            FLOOR_LIGHT
        };
        assert_eq!(canvas.pixel(x, y), Some(expected));
    }
    assert_eq!(points.len(), 1 + 5 + 9 + 5 + 1);
    let mut flat = canvas_with_point();
    fill_diamond(&mut flat, 2, 2, 3, 0, FLOOR_LIGHT, FLOOR_DITHER);
    assert!(painted(&flat).is_empty());
}
