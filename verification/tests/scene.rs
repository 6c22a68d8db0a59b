use theywork_render::canvas::{Canvas, PixelEncoding};
use theywork_render::color::Color;
use theywork_render::room::draw_list_scene;
use theywork_render::scene::{draw_bookcase, draw_flat_floor, draw_lounge, draw_potted_plant};

const TABLE_TOP: Color = Color::Rgb(107, 68, 41);
const RUG: Color = Color::Rgb(194, 90, 74);
const RUG_BORDER: Color = Color::Rgb(142, 58, 46);
const WINDOW_LIGHT: Color = Color::Rgb(90, 169, 201);
const FLOOR_LIGHT: Color = Color::Rgb(220, 201, 164);
const FLOOR_DARK: Color = Color::Rgb(156, 135, 99);
const FLOOR_DITHER: Color = Color::Rgb(192, 170, 130);

#[test]
fn bookcase_holds_staggered_books() {
    let mut canvas = Canvas::with_encoding(20, 20, PixelEncoding::HalfBlocks);
    draw_bookcase(&mut canvas, 2, 3, 10, 9);
    assert_eq!(canvas.pixel(2, 3), Some(TABLE_TOP));
    assert_eq!(canvas.pixel(4, 4), Some(RUG));
    assert_eq!(canvas.pixel(5, 5), Some(WINDOW_LIGHT));
    assert_eq!(canvas.pixel(4, 5), Some(TABLE_TOP));
    assert_eq!(canvas.pixel(12, 3), None);
}

#[test]
fn a_tiny_bookcase_is_not_drawn() {
    let mut canvas = Canvas::with_encoding(20, 20, PixelEncoding::HalfBlocks);
    draw_bookcase(&mut canvas, 2, 3, 4, 9);
    for x in 0..20 {
        for y in 0..20 {
            assert_eq!(canvas.pixel(x, y), None);
        }
    }
}

#[test]
fn plant_has_a_stem_and_a_pot() {
    let mut canvas = Canvas::with_encoding(20, 20, PixelEncoding::HalfBlocks);
    draw_potted_plant(&mut canvas, 2, 2, 12, 12);
    assert_eq!(canvas.pixel(8, 2), Some(Color::Rgb(91, 185, 123)));
    assert_eq!(canvas.pixel(5, 13), Some(Color::Rgb(138, 90, 56)));
    assert_eq!(canvas.pixel(1, 1), None);
}

#[test]
fn lounge_rug_fills_the_middle_of_the_room() {
    let mut canvas = Canvas::with_encoding(0, 0, PixelEncoding::HalfBlocks);
    canvas.resize_for_cells(80, 24);
    draw_lounge(&mut canvas, 10, 40);
    assert_eq!(canvas.pixel(20, 10), Some(RUG_BORDER));
    assert_eq!(canvas.pixel(21, 11), Some(RUG));
    assert_eq!(canvas.pixel(19, 10), None);
    let mut shallow = Canvas::with_encoding(0, 0, PixelEncoding::HalfBlocks);
    shallow.resize_for_cells(80, 24);
    draw_lounge(&mut shallow, 10, 20);
    assert!((0..80).all(|x| (0..48).all(|y| shallow.pixel(x, y).is_none())));
}

#[test]
fn floor_has_seams_and_a_dark_top_row() {
    let mut canvas = Canvas::with_encoding(10, 20, PixelEncoding::HalfBlocks);
    draw_flat_floor(&mut canvas, 4, 20);
    assert_eq!(canvas.pixel(5, 4), Some(FLOOR_DARK));
    assert_eq!(canvas.pixel(5, 5), Some(FLOOR_DARK));
    assert_eq!(canvas.pixel(5, 14), Some(FLOOR_DITHER));
    assert_eq!(canvas.pixel(0, 10), Some(FLOOR_DITHER));
    assert_eq!(canvas.pixel(5, 10), Some(FLOOR_LIGHT));
    assert_eq!(canvas.pixel(5, 3), None);
    assert_eq!(canvas.pixel(9, 19), Some(FLOOR_LIGHT));
}

#[test]
fn list_scene_clears_the_canvas() {
    let mut canvas = Canvas::with_encoding(6, 4, PixelEncoding::Sextants);
    canvas.set(1, 1, RUG);
    draw_list_scene(&mut canvas);
    for x in 0..6 {
        for y in 0..4 {
            assert_eq!(canvas.pixel(x, y), Some(Color::Rgb(24, 26, 29)));
        }
    }
}
