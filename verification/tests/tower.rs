use theywork_render::canvas::{Canvas, PixelEncoding};
use theywork_render::color::Color;
use theywork_render::layout::Rect;
use theywork_render::tower::{exterior, native_plate_rect, native_rect, tower_layout, PixelRect, TowerPlan};

fn ratatui_rect(rect: Rect) -> ratatui::layout::Rect {
    ratatui::layout::Rect::new(rect.x, rect.y, rect.width, rect.height)
}

#[test]
fn native_labels_round_downward_without_erasing_actor_pixels() {
    let area = Rect::new(26, 2, 140, 54);
    for (height, rows) in [(16, 1), (32, 2)] {
        for y in 96..112 {
            let pixel = PixelRect {
                x: 96,
                y,
                width: 72,
                height,
            };
            let label = native_plate_rect(pixel, area, 8, 16);
            assert!(usize::from(label.y - area.y) * 16 >= pixel.y);
            assert_eq!(label.height, rows);
            assert_eq!(
                ratatui_rect(label).intersection(ratatui_rect(area)),
                ratatui_rect(label)
            );
        }
    }
    let pixel = PixelRect {
        x: 96,
        y: 110,
        width: 72,
        height: 16,
    };
    assert_eq!(native_plate_rect(pixel, area, 8, 16), Rect::new(38, 9, 9, 1));
    assert_eq!(
        native_rect(pixel, area, 8, 16).height,
        2,
        "hitbox rounding remains expansive"
    );
}

#[test]
fn zero_or_offscreen_geometry_never_becomes_a_phantom_click() {
    let area = Rect::new(10, 5, 80, 20);
    for rect in [
        PixelRect::default(),
        PixelRect {
            x: 1000,
            y: 1000,
            width: 20,
            height: 20,
        },
    ] {
        let hit = native_rect(rect, area, 8, 16);
        assert!(hit.width == 0 || hit.height == 0);
    }
    let pixel = PixelRect {
        x: 15,
        y: 31,
        width: 2,
        height: 2,
    };
    assert_eq!(native_rect(pixel, area, 8, 16), Rect::new(11, 6, 2, 2));
}

#[test]
fn plates_without_a_cell_size_are_empty() {
    let area = Rect::new(3, 4, 20, 10);
    let pixel = PixelRect { x: 8, y: 16, width: 16, height: 16 };
    assert_eq!(native_plate_rect(pixel, area, 0, 16), Rect::new(3, 4, 0, 0));
    assert_eq!(native_rect(pixel, area, 8, 0), Rect::new(3, 4, 0, 0));
}

#[test]
fn the_city_surrounds_the_building() {
    let mut canvas = Canvas::with_encoding(200, 100, PixelEncoding::HalfBlocks);
    let building = PixelRect { x: 50, y: 40, width: 60, height: 30 };
    exterior(&mut canvas, building, 2, false);
    let sky = Color::Rgb(25, 34, 49);
    let distant = Color::Rgb(34, 46, 63);
    let ground = Color::Rgb(34, 44, 49);
    let edge = Color::Rgb(67, 85, 95);
    assert_eq!(canvas.pixel(0, 0), Some(sky));
    assert_eq!(canvas.pixel(0, 37), Some(distant));
    assert_eq!(canvas.pixel(60, 0), Some(sky));
    assert_eq!(canvas.pixel(60, 37), Some(edge));
    assert_eq!(canvas.pixel(60, 72), Some(edge));
    assert_eq!(canvas.pixel(60, 80), Some(ground));
    assert_eq!(canvas.pixel(10, 72), Some(ground));
    assert_eq!(canvas.pixel(58, 20), Some(sky));
    assert!((0..200).all(|x| (0..100).all(|y| canvas.pixel(x, y).is_some())));

    let mut light = Canvas::with_encoding(20, 20, PixelEncoding::HalfBlocks);
    exterior(&mut light, PixelRect { x: 0, y: 5, width: 4, height: 4 }, 1, true);
    assert_eq!(light.pixel(10, 19), Some(Color::Rgb(207, 210, 199)));
}

#[test]
fn the_tower_stacks_the_shown_floors_in_whole_rows() {
    match tower_layout(Rect::new(0, 0, 80, 30), 2, 4, 320, 3, 1, true) {
        Some(TowerPlan::Building { building, exterior, start, floors }) => {
            assert_eq!(building, Rect::new(0, 0, 80, 30));
            assert!(exterior.is_none());
            assert_eq!(start, 0);
            assert_eq!(
                floors,
                vec![
                    Rect::new(0, 0, 80, 10),
                    Rect::new(0, 10, 80, 10),
                    Rect::new(0, 20, 80, 10)
                ]
            );
        }
        _ => panic!("expected the building"),
    }
    match tower_layout(Rect::new(0, 0, 80, 60), 8, 16, 640, 5, 4, true) {
        Some(TowerPlan::Building { building, exterior, start, floors }) => {
            assert_eq!(building, Rect::new(0, 2, 80, 55));
            assert_eq!(
                exterior,
                Some(PixelRect { x: 0, y: 32, width: 640, height: 880 })
            );
            assert_eq!(start, 0);
            assert_eq!(floors.len(), 5);
            assert_eq!(floors[4], Rect::new(0, 46, 80, 11));
        }
        _ => panic!("expected the building"),
    }
}

#[test]
fn a_single_floor_view_and_the_small_cases() {
    match tower_layout(Rect::new(0, 0, 80, 30), 2, 4, 320, 3, 2, false) {
        Some(TowerPlan::Building { start, floors, .. }) => {
            assert_eq!(start, 2);
            assert_eq!(floors, vec![Rect::new(0, 0, 80, 30)]);
        }
        _ => panic!("expected the building"),
    }
    assert!(matches!(
        tower_layout(Rect::new(0, 0, 30, 30), 2, 4, 320, 3, 0, true),
        Some(TowerPlan::Compact)
    ));
    assert!(matches!(
        tower_layout(Rect::new(0, 0, 80, 30), 2, 4, 200, 3, 0, true),
        Some(TowerPlan::Compact)
    ));
    assert!(tower_layout(Rect::new(0, 0, 80, 30), 2, 4, 320, 3, 3, true).is_none());
}
