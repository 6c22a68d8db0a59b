use theywork_render::canvas::{Canvas, PixelEncoding};
use theywork_render::layout::desk_layout;
use theywork_render::room::{figure_dimensions, FlatRoom};
use theywork_render::views::Projection;

#[test]
fn resize_plans_have_only_occupied_rows_and_adjacent_nameplates() {
    for encoding in [
        PixelEncoding::HalfBlocks,
        PixelEncoding::Quadrants,
        PixelEncoding::Sextants,
    ] {
        for (width, height) in [(80, 24), (120, 32), (192, 58), (240, 70), (110, 80)] {
            let mut canvas = Canvas::with_encoding(0, 0, encoding);
            canvas.resize_for_cells(width, height - 5);
            for count in [1, 3, 20] {
                let layout = desk_layout(count, width as u16, (height - 5) as u16);
                for projection in [Projection::TopDown, Projection::Side] {
                    let shown = count.min(if projection == Projection::Side {
                        layout.columns
                    } else {
                        layout.page_size
                    });
                    let plan = FlatRoom::new(canvas.geometry(), shown, layout, projection);
                    assert_eq!(plan.stations.len(), shown);
                    assert!(plan.bottom <= canvas.height());
                    let (px, py) = canvas.pixels_per_cell();
                    for station in &plan.stations {
                        assert!(station.center_x >= station.desk_width / 2);
                        assert!(station.center_x + station.desk_width / 2 <= canvas.width());
                        assert!(
                            station.worker_y >= plan.top,
                            "{encoding:?}/{width}x{height}/{count}/{projection:?}: {station:?}"
                        );
                        assert!(station.worker_y + station.worker_height <= station.label_y + py);
                        assert!(station.label_y < plan.bottom);
                        assert!(station.label_y - (station.desk_y + station.desk_height) <= py * 2);
                        assert!(station.worker_width >= px * 3);
                    }
                    for (index, first) in plan.stations.iter().enumerate() {
                        for second in plan.stations.iter().skip(index + 1) {
                            assert!(
                                first.label_y != second.label_y
                                    || first.center_x.abs_diff(second.center_x)
                                        >= first.label_width * px
                            );
                        }
                    }
                }
                if count <= 3 {
                    assert_eq!(layout.rows, 1);
                }
            }
        }
    }
}

#[test]
fn figures_take_the_largest_authored_size_that_fits() {
    assert_eq!(figure_dimensions(PixelEncoding::HalfBlocks, (1, 2), 30, 40), (24, 34));
    assert_eq!(figure_dimensions(PixelEncoding::HalfBlocks, (1, 2), 50, 70), (48, 68));
    assert_eq!(figure_dimensions(PixelEncoding::HalfBlocks, (1, 2), 20, 25), (14, 20));
    assert_eq!(figure_dimensions(PixelEncoding::Quadrants, (2, 2), 30, 40), (28, 20));
    assert_eq!(figure_dimensions(PixelEncoding::Sextants, (2, 3), 3, 3), (7, 10));
}

#[test]
fn flat_room_centres_a_single_row() {
    let mut canvas = Canvas::with_encoding(0, 0, PixelEncoding::HalfBlocks);
    canvas.resize_for_cells(120, 40);
    let layout = desk_layout(3, 120, 40);
    let plan = FlatRoom::new(canvas.geometry(), 3, layout, Projection::TopDown);
    assert_eq!(plan.stations.len(), 3);
    let centres: Vec<usize> = plan.stations.iter().map(|s| s.center_x).collect();
    assert!(centres[0] < centres[1] && centres[1] < centres[2]);
    assert_eq!(centres[1] - centres[0], centres[2] - centres[1]);
    assert!(plan.top < plan.bottom && plan.bottom <= canvas.height());
}
