use std::collections::BTreeSet;

use theywork_render::canvas::{density, Canvas, PixelEncoding};
use theywork_render::color::phase_ms;
use theywork_render::iso::{
    desk_bounds, floor_corners, make_grid, make_grid_with_encoding, manager_bounds, manager_position,
    manager_tile, physical_to_cell, worker_bounds, worker_marker_position, worker_plate_position,
    RoomScale, MANAGER_HOLD_MS, MANAGER_TRAVEL_MS,
};

const ISO_ROOM_COLUMNS: usize = 6;
const ISO_ROOM_ROWS: usize = 4;

fn overlap_area(first: (i32, i32, i32, i32), second: (i32, i32, i32, i32)) -> i32 {
    let width = first.2.min(second.2) - first.0.max(second.0);
    let height = first.3.min(second.3) - first.1.max(second.1);
    width.max(0) * height.max(0)
}

#[test]
fn occupied_desk_tiles_are_unique_and_spread_across_the_plate() {
    let grid = make_grid(160, 88, ISO_ROOM_COLUMNS, ISO_ROOM_ROWS);
    let tiles = (0..5).map(|slot| grid.desk_tile(slot)).collect::<Vec<_>>();
    let occupied = tiles.iter().copied().collect::<BTreeSet<_>>();
    assert_eq!(occupied.len(), tiles.len(), "occupied desk tiles overlap");

    let min_x = tiles.iter().map(|tile| tile.0).min().unwrap_or(0);
    let max_x = tiles.iter().map(|tile| tile.0).max().unwrap_or(0);
    let min_y = tiles.iter().map(|tile| tile.1).min().unwrap_or(0);
    let max_y = tiles.iter().map(|tile| tile.1).max().unwrap_or(0);
    assert!(max_x - min_x >= 3, "desks do not span the plate width");
    assert!(max_y - min_y >= 3, "desks do not span the plate depth");

    let manager = manager_tile(grid, tiles.len(), 0);
    assert!(
        !occupied.contains(&manager),
        "manager shares occupied desk tile {manager:?}"
    );
}

#[test]
fn five_workers_fit_the_plate_without_clipping_or_each_other() {
    let modes = [
        (PixelEncoding::HalfBlocks, None),
        (PixelEncoding::Quadrants, None),
        (PixelEncoding::Sextants, None),
        (PixelEncoding::Sextants, Some((10, 20))),
    ];
    for (encoding, cell_size) in modes {
        let mut canvas = Canvas::with_encoding(0, 0, encoding);
        canvas.set_cell_pixel_size(cell_size);
        canvas.resize_for_cells(160, 44);
        let grid = make_grid_with_encoding(
            canvas.width(),
            canvas.height(),
            ISO_ROOM_COLUMNS,
            ISO_ROOM_ROWS,
            encoding,
            canvas.pixels_per_cell(),
        );
        let corners = floor_corners(grid);
        let (back, front) = (corners[0], corners[2]);
        let plate_height = front.1.saturating_sub(back.1) as usize;
        let mut bounds = Vec::new();
        for slot in 0..5 {
            let (x, y, width, height) = worker_bounds(grid, RoomScale::Floor, slot);
            assert!(
                x >= 0 && y >= 0,
                "{encoding:?}/{cell_size:?} worker {slot} clips top/left"
            );
            assert!(
                x + width as i32 <= canvas.width() as i32 && y + height as i32 <= canvas.height() as i32,
                "{encoding:?}/{cell_size:?} worker {slot} clips bottom/right"
            );
            if slot == 2 {
                assert!(
                    canvas.width() as i32 - (x + width as i32) >= width as i32 / 2,
                    "{encoding:?}/{cell_size:?} outer worker has no figure-width gutter"
                );
            }
            assert!(
                height * 2 <= plate_height,
                "{encoding:?}/{cell_size:?} worker height {height} overwhelms plate height {plate_height}"
            );
            bounds.push((x, y, x + width as i32, y + height as i32));

            let (desk_x, desk_y, desk_width, desk_height) = desk_bounds(grid, RoomScale::Floor, slot);
            let (tile_x, tile_y) = grid.desk_tile(slot);
            let (center_x, _) = grid.center(tile_x, tile_y);
            let (monitor_width, monitor_height) = RoomScale::Floor.monitor_size(grid);
            let monitor_x = center_x - desk_width as i32 / 4 - monitor_width as i32 / 2;
            let monitor_y = desk_y - monitor_height as i32 + grid.scale_half_height(2) as i32;
            assert!(
                desk_x >= 0
                    && desk_y >= 0
                    && desk_x + desk_width as i32 <= canvas.width() as i32
                    && desk_y + desk_height as i32 <= canvas.height() as i32,
                "{encoding:?}/{cell_size:?} desk {slot} clips the frame"
            );
            assert!(
                monitor_x >= 0
                    && monitor_y >= 0
                    && monitor_x + monitor_width as i32 <= canvas.width() as i32
                    && monitor_y + monitor_height as i32 <= canvas.height() as i32,
                "{encoding:?}/{cell_size:?} monitor {slot} clips the frame"
            );
        }
        for (index, first) in bounds.iter().enumerate() {
            for (other_index, second) in bounds.iter().enumerate().skip(index + 1) {
                assert_eq!(
                    overlap_area(*first, *second),
                    0,
                    "{encoding:?}/{cell_size:?} workers {index} and {other_index} overlap"
                );
            }
        }
    }
}

#[test]
fn worker_marker_positions_use_encoding_cell_density() {
    for encoding in [PixelEncoding::HalfBlocks, PixelEncoding::Quadrants, PixelEncoding::Sextants] {
        let (cell_width, cell_height) = density(encoding);
        let grid = make_grid_with_encoding(
            160usize.saturating_mul(cell_width),
            cell_height * 44,
            ISO_ROOM_COLUMNS,
            ISO_ROOM_ROWS,
            encoding,
            (cell_width, cell_height),
        );
        let (tile_x, tile_y) = grid.desk_tile(0);
        let (center_x, center_y) = grid.center(tile_x, tile_y);
        assert_eq!(
            worker_marker_position(grid, 0),
            (
                physical_to_cell(center_x, cell_width),
                physical_to_cell(center_y + grid.tile_height / 2, cell_height),
            ),
            "{encoding:?} marker should be returned in terminal-cell coordinates"
        );
    }
}

#[test]
fn manager_reaches_attention_pose_after_travel() {
    let origin = (0, 0);
    let target = (20, 10);
    let travel = MANAGER_TRAVEL_MS as i32;
    let x = origin.0 + (target.0 - origin.0) * travel / MANAGER_TRAVEL_MS as i32;
    let y = origin.1 + (target.1 - origin.1) * travel / MANAGER_TRAVEL_MS as i32;
    assert_eq!((x, y), target);
    assert!(phase_ms(MANAGER_TRAVEL_MS as i64, MANAGER_TRAVEL_MS + MANAGER_HOLD_MS) >= MANAGER_TRAVEL_MS);
}

#[test]
fn manager_walks_from_the_back_corner_and_holds_at_its_tile() {
    let grid = make_grid(160, 88, ISO_ROOM_COLUMNS, ISO_ROOM_ROWS);
    let tile = manager_tile(grid, 5, 0);
    let start = grid.center(0, grid.rows - 1);
    let target = grid.center(tile.0, tile.1);
    assert_eq!(manager_position(grid, tile, 0), (start.0, start.1, false));
    let cycle = (MANAGER_TRAVEL_MS + MANAGER_HOLD_MS) as i64;
    assert_eq!(manager_position(grid, tile, cycle), (start.0, start.1, false));
    assert_eq!(
        manager_position(grid, tile, MANAGER_TRAVEL_MS as i64),
        (target.0, target.1, true)
    );
    assert_eq!(
        manager_position(grid, tile, cycle - 1),
        (target.0, target.1, true)
    );
    let (x, y, moving) = manager_position(grid, tile, MANAGER_TRAVEL_MS as i64 / 2);
    assert!(!moving);
    assert_eq!(x, start.0 + (target.0 - start.0) / 2);
    assert_eq!(y, start.1 + (target.1 - start.1) / 2);
}

#[test]
fn manager_bounds_follow_the_frozen_animation_time() {
    let mut grid = make_grid(160, 88, ISO_ROOM_COLUMNS, ISO_ROOM_ROWS);
    let tile = manager_tile(grid, 5, 0);
    let (width, height) = RoomScale::Floor.manager_size(grid);
    let (x, y, w, h, attention) = manager_bounds(grid, RoomScale::Floor, tile, MANAGER_TRAVEL_MS as i64);
    let target = grid.center(tile.0, tile.1);
    assert_eq!((w, h), (width, height));
    assert!(attention);
    assert_eq!(x, target.0 - width as i32 / 2);
    assert_eq!(y, target.1 - height as i32 + 1);

    grid.animation_now = Some(0);
    let (_, _, _, _, frozen_attention) =
        manager_bounds(grid, RoomScale::Floor, tile, MANAGER_TRAVEL_MS as i64);
    assert!(!frozen_attention);
}

#[test]
fn floor_corners_surround_every_tile_centre() {
    let grid = make_grid(160, 88, ISO_ROOM_COLUMNS, ISO_ROOM_ROWS);
    let corners = floor_corners(grid);
    let (back, right, front, left) = (corners[0], corners[1], corners[2], corners[3]);
    assert_eq!(back.1, grid.center(0, 0).1 - grid.tile_height / 2);
    assert_eq!(right.0, grid.center(ISO_ROOM_COLUMNS - 1, 0).0 + grid.tile_width / 2);
    assert_eq!(front.1, grid.center(ISO_ROOM_COLUMNS - 1, ISO_ROOM_ROWS - 1).1 + grid.tile_height / 2);
    assert_eq!(left.0, grid.center(0, ISO_ROOM_ROWS - 1).0 - grid.tile_width / 2);
    for x in 0..ISO_ROOM_COLUMNS {
        for y in 0..ISO_ROOM_ROWS {
            let (cx, cy) = grid.center(x, y);
            assert!(left.0 < cx && cx < right.0);
            assert!(back.1 < cy && cy < front.1);
        }
    }
}

#[test]
fn half_heights_round_up_and_saturate() {
    let grid = make_grid(160, 88, ISO_ROOM_COLUMNS, ISO_ROOM_ROWS);
    assert_eq!(grid.scale_half_height(1), 1);
    assert_eq!(grid.scale_half_height(3), 3);
    assert_eq!(grid.scale_half_height(usize::MAX), usize::MAX / 2);
}

#[test]
fn sizes_derive_from_the_worker_figure() {
    let grid = make_grid(160, 88, ISO_ROOM_COLUMNS, ISO_ROOM_ROWS);
    let (width, height) = RoomScale::Floor.worker_size(grid);
    assert_eq!(
        RoomScale::Floor.monitor_size(grid),
        ((width * 2 / 3).max(4), (height / 4).max(4))
    );
    assert_eq!(
        RoomScale::Floor.plant_size(grid),
        ((width * 3 / 4).max(4), (height * 4 / 5).max(5))
    );
    assert_eq!(
        RoomScale::Floor.cooler_size(grid),
        ((width * 2 / 3).max(4), (height * 3 / 4).max(5))
    );
}

#[test]
fn name_plates_sit_under_their_desks() {
    let grid = make_grid(160, 88, ISO_ROOM_COLUMNS, ISO_ROOM_ROWS);
    for slot in 0..5 {
        let (x, y) = worker_plate_position(grid, slot);
        let (tile_x, tile_y) = grid.desk_tile(slot);
        let (center_x, _) = grid.center(tile_x, tile_y);
        let (_, desk_y, _, desk_height) = desk_bounds(grid, RoomScale::Floor, slot);
        assert_eq!(x, center_x);
        assert_eq!(y, (desk_y + desk_height as i32 + 1).div_euclid(2));
    }
}
