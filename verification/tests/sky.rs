use theywork_render::canvas::{Canvas, PixelEncoding};
use theywork_render::color::{blend_color, daylight_amount, sky_color, Color};
use theywork_render::sky::{draw_sky_area, draw_window};

const WALL: Color = Color::Rgb(64, 68, 72);
const INK: Color = Color::Rgb(245, 246, 248);
const WINDOW_FRAME: Color = Color::Rgb(43, 37, 66);
const WINDOW_LIGHT: Color = Color::Rgb(90, 169, 201);
const OUTLINE: Color = Color::Rgb(13, 11, 20);

#[test]
fn clouds_never_draw_outside_their_window() {
    let mut canvas = Canvas::with_encoding(80, 40, PixelEncoding::HalfBlocks);
    for now in [0, 1000, 3000, 8000, 15000] {
        canvas.fill(WALL);
        draw_sky_area(&mut canvas, 20, 10, 30, 20, now);
        for y in 0..40 {
            for x in 0..80 {
                if !(20..50).contains(&x) || !(10..30).contains(&y) {
                    assert_eq!(canvas.pixel(x, y), Some(WALL));
                }
            }
        }
    }
}

#[test]
fn the_cloud_drifts_one_pixel_every_220_milliseconds() {
    let now = 45_000;
    let cloud = blend_color(WALL, INK, daylight_amount(now));
    let mut canvas = Canvas::with_encoding(80, 40, PixelEncoding::HalfBlocks);
    draw_sky_area(&mut canvas, 20, 10, 30, 21, now);
    let left = 20 - 7 + ((now as u64 / 220) % 40) as usize;
    let row = 10 + 7;
    for offset in 0..8 {
        if (20..50).contains(&(left + offset)) {
            assert_eq!(canvas.pixel(left + offset, row), Some(cloud));
        }
    }
    assert_eq!(daylight_amount(now), 255);
    let all_painted = (20..50).all(|x| (10..31).all(|y| canvas.pixel(x, y).is_some()));
    assert!(all_painted);
    assert_eq!(canvas.pixel(21, 10), Some(sky_color(now, 0, 21)));
}

#[test]
fn night_skies_show_stars() {
    let now = 0;
    assert!(daylight_amount(now) < 150);
    let star = blend_color(INK, Color::Rgb(88, 214, 232), daylight_amount(now));
    let mut canvas = Canvas::with_encoding(80, 40, PixelEncoding::HalfBlocks);
    draw_sky_area(&mut canvas, 20, 10, 30, 20, now);
    for index in 0..4usize {
        let x = 20 + (index * 17) % 30;
        let y = 10 + (index * 5) % 20;
        assert_eq!(canvas.pixel(x, y), Some(star));
    }
}

#[test]
fn windows_frame_their_sky_with_a_bar_and_a_lit_sill() {
    let mut canvas = Canvas::with_encoding(40, 20, PixelEncoding::HalfBlocks);
    draw_window(&mut canvas, 5, 4, 12, 8, 45_000);
    assert_eq!(canvas.pixel(5, 4), Some(OUTLINE));
    assert_eq!(canvas.pixel(16, 11), Some(OUTLINE));
    assert_eq!(canvas.pixel(11, 6), Some(WINDOW_FRAME));
    assert_eq!(canvas.pixel(7, 10), Some(WINDOW_LIGHT));
    assert_eq!(canvas.pixel(4, 4), None);
    let mut tiny = Canvas::with_encoding(40, 20, PixelEncoding::HalfBlocks);
    draw_window(&mut tiny, 5, 4, 4, 8, 45_000);
    assert!((0..40).all(|x| (0..20).all(|y| tiny.pixel(x, y).is_none())));
}
