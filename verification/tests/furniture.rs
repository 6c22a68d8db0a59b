use theywork_render::canvas::{Canvas, PixelEncoding};
use theywork_render::color::Color;
use theywork_render::furniture::{draw_chair, draw_rug, draw_table};
use theywork_render::iso::{make_grid, RoomScale};

const RUG: Color = Color::Rgb(194, 90, 74);
const RUG_BORDER: Color = Color::Rgb(142, 58, 46);
const TABLE_TOP: Color = Color::Rgb(107, 68, 41);
const CHAIR_BACK: Color = Color::Rgb(65, 58, 91);
const OUTLINE: Color = Color::Rgb(13, 11, 20);
const LIGHT_INK: Color = Color::Rgb(28, 31, 36);

fn room_canvas() -> Canvas {
    Canvas::with_encoding(160, 88, PixelEncoding::HalfBlocks)
}

#[test]
fn rugs_are_red_diamonds_with_darker_borders() {
    let grid = make_grid(160, 88, 6, 4);
    let mut canvas = room_canvas();
    let (cx, cy) = grid.center(3, 2);
    draw_rug(&mut canvas, grid, cx, cy);
    let half_width = (grid.tile_width * 9 / 20).max(3);
    let half_height = (grid.tile_height * 9 / 20).max(2);
    let at = |x: i32, y: i32| canvas.pixel(x as usize, y as usize);
    assert_eq!(at(cx, cy - half_height), Some(RUG_BORDER));
    assert_eq!(at(cx + half_width, cy), Some(RUG_BORDER));
    assert_eq!(at(cx, cy + half_height), Some(RUG_BORDER));
    assert_eq!(at(cx - half_width, cy), Some(RUG_BORDER));
    assert_eq!(at(cx, cy), Some(RUG));
    assert_eq!(at(cx + half_width + 1, cy), None);
    assert_eq!(at(cx, cy + half_height + 1), None);
}

#[test]
fn tables_stand_on_two_outlined_legs() {
    let grid = make_grid(160, 88, 6, 4);
    let mut canvas = room_canvas();
    let (cx, cy) = grid.center(2, 2);
    draw_table(&mut canvas, grid, cx, cy);
    let half_width = (grid.tile_width / 5).max(2);
    let foot = cy + grid.tile_height / 2 + 1;
    let at = |x: i32, y: i32| canvas.pixel(x as usize, y as usize);
    assert_eq!(at(cx - half_width / 2, foot), Some(OUTLINE));
    assert_eq!(at(cx + half_width / 2, foot), Some(OUTLINE));
    assert_eq!(at(cx - half_width / 2, foot + 1), None);
    assert_eq!(at(cx + 1, cy - 1), Some(TABLE_TOP));
}

#[test]
fn chairs_have_an_outlined_back_and_legs_to_the_floor() {
    let grid = make_grid(160, 88, 6, 4);
    let mut canvas = room_canvas();
    canvas.set_light_mode(true);
    draw_chair(&mut canvas, grid, RoomScale::Floor, 0);
    let (tile_x, tile_y) = grid.desk_tile(0);
    let (cx, cy) = grid.center(tile_x, tile_y);
    let (worker_width, worker_height) = RoomScale::Floor.worker_size(grid);
    let width = (worker_width * 2 / 3).max(3) as i32;
    let height = (worker_height / 3).max(3) as i32;
    let x = cx - width / 2;
    let y = cy - worker_height as i32 * 2 / 3;
    let at = |x: i32, y: i32| canvas.pixel(x as usize, y as usize);
    assert_eq!(at(x, y), Some(LIGHT_INK));
    assert_eq!(at(x + width - 1, y + height - 1), Some(LIGHT_INK));
    assert_eq!(at(x + 1, y + 1), Some(CHAIR_BACK));
    assert_eq!(at(x + 1, cy + grid.tile_height / 4), Some(LIGHT_INK));
    assert_eq!(at(x + width - 2, cy + grid.tile_height / 4), Some(LIGHT_INK));
    assert_eq!(at(x - 1, y), None);
}
