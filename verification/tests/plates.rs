use theywork_render::canvas::{Canvas, PixelEncoding};
use theywork_render::iso::{make_grid, make_room_grid, worker_bounds, worker_plate_position, RoomScale};
use theywork_render::layout::{rects_overlap, Rect};
use theywork_render::color::Color;
use theywork_render::plates::{
    draw_nameplate_chip, plate_column, plate_obstacles, scene_cell_rect, worker_plate_rect,
    worker_plate_width,
};

#[test]
fn plates_clear_every_figure_painted_in_front_at_every_time() {
    for encoding in [PixelEncoding::HalfBlocks, PixelEncoding::Quadrants, PixelEncoding::Sextants] {
        let mut canvas = Canvas::with_encoding(0, 0, encoding);
        canvas.resize_for_cells(160, 44);
        let grid = make_room_grid(&canvas, 5);
        let body = Rect::new(0, 0, 160, 44);
        for now in [0, 1200, 2400, 4000] {
            for slot in 0..5 {
                let rect = worker_plate_rect(body, grid, slot, 5, Some(0), now);
                let obstacles = plate_obstacles(body, grid, slot, 5, Some(0), now);
                assert!(
                    obstacles.iter().all(|obstacle| !rects_overlap(rect, *obstacle)),
                    "{encoding:?} at {now} plate {slot} covers a foreground figure"
                );
                assert_eq!(rect.height, 1);
                assert_eq!(rect.width, worker_plate_width(body, grid));
                assert!(rect.x + rect.width <= body.width);
                assert!(rect.y < body.height);
            }
        }
    }
}

#[test]
fn plates_stay_centred_under_desks_when_nothing_is_in_the_way() {
    let grid = make_grid(160, 88, 6, 4);
    let body = Rect::new(0, 0, 160, 44);
    let width = worker_plate_width(body, grid);
    for slot in 0..5 {
        let obstacles = plate_obstacles(body, grid, slot, 0, None, 0);
        assert!(obstacles.is_empty());
        let (center_x, y) = worker_plate_position(grid, slot);
        let rect = worker_plate_rect(body, grid, slot, 0, None, 0);
        let expected_x = (center_x - i32::from(width) / 2).clamp(0, i32::from(body.width - width));
        assert_eq!(i32::from(rect.x), expected_x);
        assert_eq!(i32::from(rect.y), y.clamp(0, 43));
    }
}

#[test]
fn plate_width_is_half_a_tile_within_the_body() {
    let grid = make_grid(160, 88, 6, 4);
    let tile_cells = (grid.tile_width / grid.pixels_per_cell.0 as i32).max(12) as u16;
    assert_eq!(
        worker_plate_width(Rect::new(0, 0, 160, 44), grid),
        (tile_cells / 2).max(12)
    );
    assert_eq!(worker_plate_width(Rect::new(0, 0, 5, 44), grid), 5);
}

#[test]
fn scene_rects_round_outwards_to_whole_cells() {
    let grid = make_grid(160, 88, 6, 4);
    let body = Rect::new(3, 4, 100, 100);
    let rect = scene_cell_rect(body, grid, 5, 5, 4, 4);
    assert_eq!(rect, Rect::new(8, 6, 4, 3));
    let clipped = scene_cell_rect(body, grid, -10, -10, 4, 4);
    assert_eq!(clipped, Rect::new(3, 4, 0, 0));
    let (x, y, width, height) = worker_bounds(grid, RoomScale::Floor, 0);
    let cells = scene_cell_rect(Rect::new(0, 0, 160, 44), grid, x, y, width, height);
    assert_eq!(i32::from(cells.x), x);
    assert_eq!(i32::from(cells.y), y.div_euclid(2));
}

#[test]
fn plate_columns_pick_the_nearest_clear_column() {
    let body = Rect::new(0, 0, 20, 3);
    let wall = vec![Rect::new(6, 0, 4, 3)];
    assert_eq!(plate_column(&wall, body, 3, 1, 17, 7), 10);
    assert_eq!(plate_column(&wall, body, 3, 1, 17, 5), 3);
    let tie = vec![Rect::new(5, 0, 4, 3)];
    assert_eq!(plate_column(&tie, body, 2, 1, 18, 6), 3);
    let everywhere = vec![Rect::new(0, 0, 20, 3)];
    assert_eq!(plate_column(&everywhere, body, 3, 1, 17, 9), 9);
    assert_eq!(plate_column(&Vec::new(), body, 3, 1, 17, 9), 9);
}

#[test]
fn chips_fill_the_plate_cells_in_canvas_pixels() {
    let mut canvas = Canvas::with_encoding(0, 0, PixelEncoding::Quadrants);
    canvas.resize_for_cells(160, 44);
    let grid = make_room_grid(&canvas, 5);
    let body = Rect::new(0, 0, 160, 44);
    let plate = worker_plate_rect(body, grid, 1, 5, Some(0), 0);
    draw_nameplate_chip(&mut canvas, grid, 1, 5, Some(0), 0, true);
    let highlight = Color::Rgb(48, 53, 59);
    let mut painted = 0;
    for y in 0..canvas.height() {
        for x in 0..canvas.width() {
            let inside = (x / 2) >= usize::from(plate.x)
                && (x / 2) < usize::from(plate.x + plate.width)
                && (y / 2) >= usize::from(plate.y)
                && (y / 2) < usize::from(plate.y + plate.height);
            assert_eq!(canvas.pixel(x, y) == Some(highlight), inside);
            if inside {
                painted += 1;
            }
        }
    }
    assert_eq!(painted, usize::from(plate.width) * 2 * usize::from(plate.height) * 2);
    draw_nameplate_chip(&mut canvas, grid, 1, 5, Some(0), 0, false);
    assert_eq!(
        canvas.pixel(usize::from(plate.x) * 2, usize::from(plate.y) * 2),
        Some(Color::Rgb(34, 37, 41))
    );
}
