use theywork_render::color::{
    blend_channel, blend_color, daylight_amount, light_color, palette, phase_ms, room_materials,
    sky_color, Color, SKY_CYCLE_MS,
};

#[test]
fn sky_is_deterministic_but_changes_with_time() {
    assert_eq!(sky_color(1_234, 2, 10), sky_color(1_234, 2, 10));
    assert_ne!(
        sky_color(0, 0, 10),
        sky_color((SKY_CYCLE_MS / 4) as i64, 0, 10)
    );
}

#[test]
fn blending_rounds_between_its_ends() {
    assert_eq!(blend_channel(0, 255, 0), 0);
    assert_eq!(blend_channel(0, 255, 255), 255);
    assert_eq!(blend_channel(0, 255, 128), 128);
    assert_eq!(blend_channel(100, 50, 51), 90);
    assert_eq!(
        blend_color(Color::Rgb(0, 0, 0), Color::Rgb(255, 100, 10), 255),
        Color::Rgb(255, 100, 10)
    );
    assert_eq!(
        blend_color(Color::Rgb(9, 8, 7), Color::Rgb(255, 100, 10), 0),
        Color::Rgb(9, 8, 7)
    );
}

#[test]
fn daylight_peaks_half_way_through_the_cycle() {
    assert_eq!(daylight_amount(0), 0);
    assert_eq!(daylight_amount((SKY_CYCLE_MS / 2) as i64), 255);
    assert_eq!(daylight_amount(SKY_CYCLE_MS as i64), 0);
    assert_eq!(daylight_amount(-5), 0);
    assert_eq!(phase_ms(95_000, SKY_CYCLE_MS), 5_000);
    assert_eq!(phase_ms(7, 0), 0);
}

#[test]
fn sky_rows_run_from_top_to_bottom_colour() {
    let noon = (SKY_CYCLE_MS / 2) as i64;
    assert_eq!(sky_color(noon, 0, 10), Color::Rgb(88, 214, 232));
    assert_eq!(sky_color(noon, 9, 10), Color::Rgb(90, 169, 201));
    assert_eq!(sky_color(0, 0, 1), Color::Rgb(13, 11, 20));
}

#[test]
fn every_palette_has_its_own_floor() {
    for light in [false, true] {
        let mut floors = Vec::new();
        for theme in 0..4 {
            let colours = palette(theme, light);
            assert!(!floors.contains(&colours[2]));
            floors.push(colours[2]);
            assert_eq!(palette(theme + 4, light), colours);
        }
    }
    let materials = room_materials(1, false);
    assert_eq!(materials.len(), 8);
    assert_eq!(materials[0], (Color::Rgb(220, 201, 164), palette(1, false)[2]));
    assert_eq!(materials[3], (Color::Rgb(64, 68, 72), palette(1, false)[1]));
}

#[test]
fn light_theme_swaps_known_colours_only() {
    assert_eq!(light_color(Color::Rgb(24, 26, 29)), Color::Rgb(247, 247, 245));
    assert_eq!(light_color(Color::Rgb(1, 2, 3)), Color::Rgb(1, 2, 3));
    assert_eq!(light_color(Color::Named(4)), Color::Named(4));
}
