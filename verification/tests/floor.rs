use theywork_render::canvas::{Canvas, PixelEncoding};
use theywork_render::color::Color;
use theywork_render::floor::{draw_floor_edges, draw_floor_grid, draw_floor_plate};
use theywork_render::iso::{floor_corners, make_grid, make_room_grid};
use theywork_render::polygon::{fill_polygon, scan_row};

const FLOOR: Color = Color::Rgb(189, 174, 150);
const FLOOR_LIGHT: Color = Color::Rgb(220, 201, 164);
const FLOOR_DARK: Color = Color::Rgb(156, 135, 99);
const FLOOR_DITHER: Color = Color::Rgb(192, 170, 130);
const OUTLINE: Color = Color::Rgb(13, 11, 20);
const RED: Color = Color::Rgb(255, 0, 0);

fn polygon_area(points: &[(i32, i32)]) -> usize {
    let twice_area = points
        .iter()
        .enumerate()
        .map(|(index, &(x0, y0))| {
            let (x1, y1) = points[(index + 1) % points.len()];
            i64::from(x0) * i64::from(y1) - i64::from(y0) * i64::from(x1)
        })
        .sum::<i64>()
        .unsigned_abs();
    usize::try_from(twice_area / 2).expect("room polygon fits in usize")
}

#[test]
fn isometric_room_has_a_floor_plate_with_breathing_space() {
    let width = 80;
    let height = 38;
    let grid = make_grid(width, height, 6, 4);
    let plate_area = polygon_area(&floor_corners(grid));
    let frame_area = width * height;

    assert!(
        plate_area >= frame_area / 5 && plate_area <= frame_area * 3 / 5,
        "floor plate area {plate_area} is not a sane share of frame area {frame_area}"
    );

    let mut canvas = Canvas::with_encoding(width, height, PixelEncoding::HalfBlocks);
    draw_floor_plate(&mut canvas, grid);
    let floor_colors = [FLOOR, FLOOR_DARK, FLOOR_DITHER];
    let floor_pixels = (0..width)
        .flat_map(|x| (0..height).map(move |y| (x, y)))
        .filter(|(x, y)| {
            canvas
                .pixel(*x, *y)
                .is_some_and(|color| floor_colors.contains(&color))
        })
        .count();
    assert!(
        floor_pixels >= frame_area / 5,
        "floor plate drew only {floor_pixels} pixels in a {frame_area}-pixel frame"
    );
}

#[test]
fn isometric_floor_is_a_continuous_surface_at_odd_pixel_sizes() {
    for encoding in [PixelEncoding::HalfBlocks, PixelEncoding::Quadrants, PixelEncoding::Sextants] {
        for count in [1, 3, 10] {
            let mut canvas = Canvas::with_encoding(0, 0, encoding);
            canvas.resize_for_cells(191, 53);
            let grid = make_room_grid(&canvas, count);
            draw_floor_plate(&mut canvas, grid);
            for y in 0..canvas.height() {
                let occupied = (0..canvas.width())
                    .filter(|x| canvas.pixel(*x, y).is_some())
                    .collect::<Vec<_>>();
                if let (Some(first), Some(last)) = (occupied.first(), occupied.last()) {
                    assert!(
                        (*first..=*last).all(|x| canvas.pixel(x, y).is_some()),
                        "{encoding:?}/{count} floor crack in row {y}"
                    );
                }
            }
        }
    }
}

#[test]
fn polygons_fill_between_pairs_of_crossings() {
    let mut canvas = Canvas::with_encoding(10, 10, PixelEncoding::HalfBlocks);
    fill_polygon(&mut canvas, &[(1, 1), (6, 1), (6, 4), (1, 4)], RED);
    for y in 0..10 {
        for x in 0..10 {
            let inside = (1..=4).contains(&y) && (1..=6).contains(&x);
            assert_eq!(canvas.pixel(x, y).is_some(), inside, "pixel {x},{y}");
        }
    }
    assert_eq!(scan_row(&[(1, 1), (6, 1), (6, 4), (1, 4)], 2), vec![1, 6]);
    assert_eq!(scan_row(&[(1, 1), (6, 1), (6, 4), (1, 4)], 1), vec![1, 6]);
    assert_eq!(scan_row(&[(1, 1), (6, 1), (6, 4), (1, 4)], 7), Vec::<i32>::new());
}

#[test]
fn concave_polygons_leave_their_notch_open() {
    let shape = [(0, 0), (8, 0), (8, 6), (4, 2), (0, 6)];
    assert_eq!(scan_row(&shape, 4), vec![0, 2, 6, 8]);
    let mut canvas = Canvas::with_encoding(10, 10, PixelEncoding::HalfBlocks);
    fill_polygon(&mut canvas, &shape, RED);
    assert_eq!(canvas.pixel(1, 4), Some(RED));
    assert_eq!(canvas.pixel(4, 4), None);
    assert_eq!(canvas.pixel(7, 4), Some(RED));
    let mut empty = Canvas::with_encoding(10, 10, PixelEncoding::HalfBlocks);
    fill_polygon(&mut empty, &[(0, 0), (5, 5)], RED);
    assert!((0..10).all(|x| (0..10).all(|y| empty.pixel(x, y).is_none())));
}

#[test]
fn floor_edges_light_the_back_and_shade_the_front() {
    let grid = make_grid(160, 88, 6, 4);
    let mut canvas = Canvas::with_encoding(160, 88, PixelEncoding::HalfBlocks);
    draw_floor_edges(&mut canvas, grid);
    let corners = floor_corners(grid);
    let (back, right, front, left) = (corners[0], corners[1], corners[2], corners[3]);
    let at = |p: (i32, i32)| canvas.pixel(p.0 as usize, p.1 as usize);
    assert_eq!(at(back), Some(FLOOR_LIGHT));
    assert_eq!(at(front), Some(OUTLINE));
    assert_eq!(at((front.0, front.1 + 1)), Some(FLOOR_DARK));
    assert_eq!(at((front.0, front.1 + 2)), Some(FLOOR_DARK));
    assert_eq!(at((front.0, front.1 + 3)), None);
    assert_eq!(at((left.0, left.1 + 1)), Some(FLOOR_DARK));
    assert_eq!(at((right.0, right.1 + 2)), Some(FLOOR_DARK));
}

#[test]
fn floor_seams_only_on_rooms_with_wide_tiles() {
    let wide = make_grid(160, 88, 6, 4);
    assert!(wide.tile_width >= 18);
    let mut canvas = Canvas::with_encoding(160, 88, PixelEncoding::HalfBlocks);
    draw_floor_grid(&mut canvas, wide);
    let seams = (0..160).flat_map(|x| (0..88).map(move |y| (x, y))).filter(|(x, y)| canvas.pixel(*x, *y) == Some(FLOOR_DITHER)).count();
    assert!(seams > 0);

    let narrow = make_grid(40, 30, 6, 4);
    assert!(narrow.tile_width < 18);
    let mut plain = Canvas::with_encoding(40, 30, PixelEncoding::HalfBlocks);
    draw_floor_grid(&mut plain, narrow);
    assert!((0..40).all(|x| (0..30).all(|y| plain.pixel(x, y).is_none())));
}
