use theywork_render::layout::{
    desk_layout, expanded_rect, floor_capacity, grid_layout, has_area, inset, page_people,
    readable_split_width, rects_overlap, vertical_bands, window_start, GridLayout, Rect,
};

#[test]
fn wide_guard_office_keeps_feeds_in_balanced_rows() {
    assert_eq!(
        grid_layout(6, 160, 44),
        GridLayout {
            columns: 3,
            rows: 2,
        }
    );
    assert_eq!(
        grid_layout(4, 160, 44),
        GridLayout {
            columns: 2,
            rows: 2,
        }
    );
}

#[test]
fn desk_layout_caps_the_main_floor_and_pages_overflow() {
    let layout = desk_layout(11, 100, 26);
    assert_eq!(layout.columns, 5);
    assert_eq!(layout.rows, 2);
    assert_eq!(layout.page_size, 10);
    assert_eq!(layout.pages, 2);
}

#[test]
fn common_five_worker_floor_uses_balanced_rows() {
    let layout = desk_layout(5, 100, 26);
    assert_eq!(layout.columns, 3);
    assert_eq!(layout.rows, 2);
    assert_eq!(layout.page_size, 6);
    assert_eq!(layout.pages, 1);
}

#[test]
fn camera_grid_holds_every_office() {
    for count in 1..30 {
        for (width, height) in [(80u16, 24u16), (160, 44), (40, 10), (300, 90)] {
            let grid = grid_layout(count, width, height);
            assert!(grid.columns >= 1 && grid.rows >= 1);
            assert!(grid.columns * grid.rows >= count);
        }
    }
    assert_eq!(grid_layout(0, 80, 24), GridLayout { columns: 0, rows: 0 });
}

#[test]
fn desk_pages_reach_every_worker() {
    for count in 1..40 {
        let layout = desk_layout(count, 100, 26);
        assert!(layout.page_size >= 1 && layout.page_size <= 10);
        assert!(layout.pages * layout.page_size >= count);
    }
    assert_eq!(desk_layout(0, 100, 26).pages, 0);
}

#[test]
fn floors_fit_one_per_ten_rows() {
    assert_eq!(floor_capacity(5), 1);
    assert_eq!(floor_capacity(24), 2);
    assert_eq!(floor_capacity(200), 5);
}

#[test]
fn window_keeps_the_selection_visible() {
    assert_eq!(window_start(0, 10, 4), 0);
    assert_eq!(window_start(5, 10, 4), 3);
    assert_eq!(window_start(9, 10, 4), 6);
    for total in 1..20 {
        for selected in 0..total {
            let start = window_start(selected, total, 3);
            assert!(start <= selected && selected < start + 3);
        }
    }
}

#[test]
fn readable_split_needs_two_wide_halves() {
    assert_eq!(readable_split_width(600, 2, 1), Some(300));
    assert_eq!(readable_split_width(601, 2, 1), Some(300));
    assert_eq!(readable_split_width(500, 2, 1), None);
    assert_eq!(readable_split_width(600, 0, 1), None);
    assert_eq!(readable_split_width(1200, 3, 2), Some(600));
}

#[test]
fn people_page_shows_the_selected_person() {
    let ids: Vec<String> = (0..7).map(|i| format!("worker-{i}")).collect();
    let (shown, page, pages) = page_people(&ids, 3, Some("worker-5"), false);
    assert_eq!(pages, 3);
    assert_eq!(page, 1);
    assert!(shown.contains(&5));
    let (first, page, _) = page_people(&ids, 3, None, false);
    assert_eq!(page, 0);
    assert_eq!(first, vec![0, 1, 2]);
}

#[test]
fn rectangles_shrink_and_split_inside_their_area() {
    let area = Rect::new(2, 3, 20, 10);
    assert!(has_area(area));
    assert_eq!(inset(area, 1), Rect::new(3, 4, 18, 8));
    assert_eq!(inset(area, 20), Rect::new(22, 13, 0, 0));
    let (header, body, footer) = vertical_bands(area, 2, 1);
    assert_eq!(header, Rect::new(2, 3, 20, 2));
    assert_eq!(body, Rect::new(2, 5, 20, 7));
    assert_eq!(footer, Rect::new(2, 12, 20, 1));
    assert!(rects_overlap(Rect::new(0, 0, 4, 4), Rect::new(3, 3, 4, 4)));
    assert!(!rects_overlap(Rect::new(0, 0, 4, 4), Rect::new(4, 0, 4, 4)));
    assert!(!has_area(Rect::new(0, 0, 0, 3)));
    let grown = expanded_rect(Rect::new(5, 5, 2, 1), Rect::new(0, 0, 20, 20), 1);
    assert_eq!(grown, Rect::new(4, 4, 4, 3));
}

#[test]
fn rectangles_end_inside_the_coordinate_space() {
    let clipped = Rect::new(65_530, 65_000, 10, 1_000);
    assert_eq!(clipped.width, 5);
    assert_eq!(clipped.height, 535);
    assert_eq!(Rect::new(1, 2, 3, 4), Rect { x: 1, y: 2, width: 3, height: 4 });
    let area = Rect::new(0, 10, 30, 12);
    for (header_height, footer_height) in [(0, 0), (3, 2), (12, 5), (40, 40)] {
        let (header, body, footer) = vertical_bands(area, header_height, footer_height);
        assert_eq!(header.y, area.y);
        assert_eq!(body.y, header.y + header.height);
        assert_eq!(footer.y, body.y + body.height);
        assert_eq!(header.height + body.height + footer.height, area.height);
    }
}
