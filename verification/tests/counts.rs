use theywork_render::color::Color;
use theywork_render::counts::{status_color, FloorCounts, StatusCounts, WorkerStatus};

#[test]
fn status_counts_label_every_status() {
    let mut counts = StatusCounts::new();
    counts.add_office(&vec![
        WorkerStatus::Running,
        WorkerStatus::Idle,
        WorkerStatus::Running,
        WorkerStatus::Failed,
    ]);
    counts.add_office(&vec![WorkerStatus::Blocked]);
    assert_eq!(counts.running, 2);
    assert_eq!(
        counts.label(),
        "2 working · 1 idle · 1 waiting · 1 failed"
    );
}

#[test]
fn floor_counts_put_observation_health_first() {
    let states: Vec<String> = [
        "Working",
        "Source unavailable",
        "Last known state",
        "Approval needed",
        "Question for you",
        "Ready",
        "Thinking",
    ]
    .iter()
    .map(|s| s.to_string())
    .collect();
    let counts = FloorCounts::new(&states);
    assert_eq!(counts.total, 7);
    assert_eq!(counts.working, 1);
    assert_eq!(counts.unavailable, 1);
    assert_eq!(counts.stale, 1);
    assert_eq!(counts.attention, 2);
    assert_eq!(counts.ready, 1);
    assert_eq!(counts.waiting, 1);
    assert_eq!(
        counts.compact(),
        "7 people · 1 offline · 1 stale · ! 2 · 1 working · 1 waiting"
    );
}

#[test]
fn an_all_ready_floor_says_so() {
    let states: Vec<String> = vec!["Ready".to_string()];
    assert_eq!(FloorCounts::new(&states).compact(), "1 person · ready");
    let empty: Vec<String> = Vec::new();
    assert_eq!(FloorCounts::new(&empty).compact(), "0 people");
}

#[test]
fn statuses_have_distinct_colours() {
    assert_eq!(status_color(WorkerStatus::Running), Color::Rgb(147, 214, 172));
    assert_eq!(status_color(WorkerStatus::Idle), Color::Rgb(185, 191, 200));
    assert_eq!(status_color(WorkerStatus::Blocked), Color::Rgb(247, 204, 125));
    assert_eq!(status_color(WorkerStatus::Failed), Color::Rgb(255, 145, 145));
}
