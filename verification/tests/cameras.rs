use theywork_render::cameras::{camera_tile, OfficeSummary};
use theywork_render::color::Color;
use theywork_render::counts::WorkerStatus;
use theywork_render::layout::Rect;

fn office(statuses: Vec<WorkerStatus>) -> OfficeSummary {
    OfficeSummary {
        name: "/work/alpha".into(),
        statuses,
        floor: 3,
    }
}

#[test]
fn a_waiting_worker_colours_the_tile_and_leads_the_status() {
    let plan = camera_tile(
        &office(vec![WorkerStatus::Running, WorkerStatus::Blocked, WorkerStatus::Idle]),
        Rect::new(0, 0, 50, 10),
        true,
        0,
    );
    assert_eq!(plan.border, Color::Rgb(247, 204, 125));
    assert_eq!(plan.title, " > F3 /work/alpha ");
    assert_eq!(plan.inner, Rect::new(1, 1, 48, 8));
    let (text, color, area) = plan.status.unwrap();
    assert_eq!(text, "! 1 WAITING \u{b7} 1 working");
    assert_eq!(color, Color::Rgb(247, 204, 125));
    assert_eq!(area, Rect::new(1, 1, 40, 1));
    let (rec, rec_area) = plan.rec.unwrap();
    assert_eq!(rec, "\u{25cf} REC ");
    assert_eq!(rec_area, Rect::new(42, 1, 7, 1));
    assert_eq!(plan.time_area, Some(Rect::new(1, 8, 48, 1)));
}

#[test]
fn a_quiet_tile_counts_working_and_idle_and_blinks() {
    let plan = camera_tile(
        &office(vec![WorkerStatus::Running, WorkerStatus::Idle, WorkerStatus::Idle]),
        Rect::new(0, 0, 50, 10),
        false,
        -1,
    );
    assert_eq!(plan.border, Color::Rgb(185, 191, 200));
    assert_eq!(plan.title, " F3 /work/alpha ");
    assert_eq!(plan.status.unwrap().0, "1 working \u{b7} 2 idle");
    assert_eq!(plan.rec.unwrap().0, "\u{25cb} REC ");
}

#[test]
fn a_failure_shows_when_nobody_waits_and_narrow_tiles_drop_the_light() {
    let plan = camera_tile(
        &office(vec![WorkerStatus::Failed]),
        Rect::new(0, 0, 20, 4),
        true,
        0,
    );
    assert_eq!(plan.border, Color::Rgb(255, 145, 145));
    let (text, color, area) = plan.status.unwrap();
    assert_eq!(text, "\u{d7} 1 FAILED \u{b7} 0 working");
    assert_eq!(color, Color::Rgb(255, 145, 145));
    assert_eq!(area, Rect::new(1, 1, 18, 1));
    assert!(plan.rec.is_none());
    assert_eq!(plan.time_area, Some(Rect::new(1, 2, 18, 1)));
}

#[test]
fn a_tile_without_room_inside_has_only_its_frame() {
    let plan = camera_tile(&office(vec![]), Rect::new(0, 0, 2, 2), false, 0);
    assert!(plan.status.is_none());
    assert!(plan.rec.is_none());
    assert!(plan.time_area.is_none());
}
