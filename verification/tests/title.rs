use theywork_render::canvas::{Canvas, PixelEncoding};
use theywork_render::color::Color;
use theywork_render::title::{draw_flat_project_sign, draw_room_project_sign, panel_color, title_color};

fn sign_body() -> Color {
    Color::Rgb(142, 26, 21)
}

fn sign_edge() -> Color {
    Color::Rgb(92, 15, 12)
}

#[test]
fn project_sign_stays_above_floor_and_within_bounded_area() {
    let mut canvas = Canvas::with_encoding(80, 40, PixelEncoding::HalfBlocks);
    draw_flat_project_sign(&mut canvas, "A", 30);
    let sign_colors = [title_color(), sign_body(), sign_edge()];
    let mut sign_pixels = 0;
    for x in 0..canvas.width() {
        for y in 0..canvas.height() {
            if let Some(color) = canvas.pixel(x, y) {
                if sign_colors.contains(&color) {
                    assert!(y < 30, "sign pixel entered floor at ({x}, {y})");
                    sign_pixels += 1;
                }
            }
        }
    }
    assert!(
        sign_pixels <= canvas.width() * canvas.height() / 3,
        "sign should occupy a modest top band"
    );
}

#[test]
fn compact_project_sign_keeps_a_flat_face_clear_of_alert_rows() {
    let mut canvas = Canvas::with_encoding(80, 40, PixelEncoding::HalfBlocks);
    draw_flat_project_sign(&mut canvas, "A", 30);
    let count_color = |color| {
        (0..canvas.width())
            .flat_map(|x| (0..canvas.height()).map(move |y| (x, y)))
            .filter(|(x, y)| canvas.pixel(*x, *y) == Some(color))
            .count()
    };
    assert!(count_color(title_color()) > 0);
    assert_eq!(count_color(sign_body()), 0);
    assert_eq!(count_color(sign_edge()), 0);
    for y in 0..canvas.pixels_per_cell().1 * 2 {
        assert!((0..canvas.width()).all(|x| canvas.pixel(x, y) != Some(title_color())));
    }
}

#[test]
fn flat_project_titles_never_cross_the_native_attention_banner() {
    for (encoding, cell_size) in [
        (PixelEncoding::HalfBlocks, None),
        (PixelEncoding::Quadrants, None),
        (PixelEncoding::Sextants, None),
        (PixelEncoding::HalfBlocks, Some((8, 16))),
    ] {
        for columns in [80, 120] {
            for label in ["00-CHECKOUT", "A-LONG-PROJECT-TITLE"] {
                let mut canvas = Canvas::with_encoding(0, 0, encoding);
                canvas.set_cell_pixel_size(cell_size);
                canvas.resize_for_cells(columns, 18);
                let (px, py) = canvas.pixels_per_cell();
                draw_room_project_sign(&mut canvas, label, 0, py * 3);
                for y in py..py * 2 {
                    for x in 0..px * 36 {
                        assert_ne!(
                            canvas.pixel(x, y),
                            Some(title_color()),
                            "title intersects alert at {columns} columns, {encoding:?}, {cell_size:?}: ({x}, {y})"
                        );
                    }
                }
                if columns == 120 && cell_size.is_some() && label == "00-CHECKOUT" {
                    assert!(
                        (0..canvas.height()).any(|y| (0..canvas.width())
                            .any(|x| canvas.pixel(x, y) == Some(title_color()))),
                        "wide artwork title should remain visible beside the alert"
                    );
                }
            }
        }
    }
}

#[test]
fn wall_title_letters_sit_on_a_panel() {
    let mut canvas = Canvas::with_encoding(80, 40, PixelEncoding::HalfBlocks);
    draw_flat_project_sign(&mut canvas, "A", 30);
    // "A" at scale one: five rows of three columns from (38, 12), panel two
    // pixels either side and one above and below.
    assert_eq!(canvas.pixel(39, 12), Some(title_color()));
    assert_eq!(canvas.pixel(38, 12), Some(panel_color()));
    assert_eq!(canvas.pixel(36, 11), Some(panel_color()));
    assert_eq!(canvas.pixel(35, 11), None);
    assert_eq!(canvas.pixel(38, 13), Some(title_color()));
    assert_eq!(canvas.pixel(40, 13), Some(title_color()));
    assert_eq!(canvas.pixel(42, 17), Some(panel_color()));
    assert_eq!(canvas.pixel(42, 18), None);
}

#[test]
fn a_title_that_would_meet_the_banner_is_left_out() {
    let mut canvas = Canvas::with_encoding(0, 0, PixelEncoding::HalfBlocks);
    canvas.resize_for_cells(40, 18);
    draw_room_project_sign(&mut canvas, "OFFICE", 0, 10);
    for x in 0..canvas.width() {
        for y in 0..canvas.height() {
            assert_eq!(canvas.pixel(x, y), None);
        }
    }
}

#[test]
fn canvas_rectangles_clip_to_the_canvas() {
    let mut canvas = Canvas::with_encoding(6, 4, PixelEncoding::Quadrants);
    canvas.fill_rect(-2, -1, 4, 3, Color::Named(3));
    assert_eq!(canvas.pixel(0, 0), Some(Color::Named(3)));
    assert_eq!(canvas.pixel(1, 1), Some(Color::Named(3)));
    assert_eq!(canvas.pixel(2, 0), None);
    assert_eq!(canvas.pixel(0, 2), None);
    canvas.fill_rect(4, 2, 10, 10, Color::Indexed(9));
    assert_eq!(canvas.pixel(5, 3), Some(Color::Indexed(9)));
    assert_eq!(canvas.pixel(9, 9), None);
    canvas.fill_rect(0, 0, 0, 5, Color::Reset);
    assert_eq!(canvas.pixel(0, 0), Some(Color::Named(3)));
    canvas.set(3, 3, Color::Rgb(1, 2, 3));
    assert_eq!(canvas.pixel(3, 3), Some(Color::Rgb(1, 2, 3)));
    assert_eq!(canvas.pixels_per_cell(), (2, 2));
}
