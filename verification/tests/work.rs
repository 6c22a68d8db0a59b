use theywork_render::work::{
    activity_text, order_records, outcome_text, searchable_work, work_preview, Activity, Outcome,
    WorkBrief, WorkRecord,
};

fn record(key: &str, at: i64, result: bool) -> WorkRecord {
    WorkRecord {
        key: key.to_string(),
        at,
        actor: "a".to_string(),
        author: "Sam".to_string(),
        heading: format!("Heading {key}"),
        text: format!("Text {key}"),
        result,
        human_request: false,
        provenance: String::new(),
    }
}

fn brief(records: Vec<WorkRecord>) -> WorkBrief {
    WorkBrief {
        worker: "a".to_string(),
        alias: "Sam".to_string(),
        title: "Task".to_string(),
        project: "p".to_string(),
        provider: "Codex".to_string(),
        state: "Working".to_string(),
        observed: "Editing src/retry.rs".to_string(),
        observed_at: 1,
        records,
        team: Vec::new(),
        coverage: String::new(),
        warning: false,
        present: true,
        details: String::new(),
    }
}

#[test]
fn activity_preserves_verbs_and_observed_outcomes() {
    assert_eq!(
        activity_text(&Activity::Editing {
            detail: "src/accounts.rs".into()
        }),
        "Editing src/accounts.rs"
    );
    assert_eq!(
        outcome_text(Some(Outcome::Exited(7))),
        "command exited with code 7"
    );
}

#[test]
fn every_activity_and_outcome_has_its_wording() {
    assert_eq!(activity_text(&Activity::Typing { detail: "cargo test".into() }), "Running cargo test");
    assert_eq!(activity_text(&Activity::Talking { detail: "hi".into() }), "Text update: hi");
    assert_eq!(activity_text(&Activity::Waiting { detail: "Review".into() }), "Recorded wait: Review");
    assert_eq!(activity_text(&Activity::Error { detail: "boom".into() }), "Error reported: boom");
    assert_eq!(activity_text(&Activity::Thinking), "Processing; no tool activity recorded");
    assert_eq!(activity_text(&Activity::Idle), "No current activity reported");
    assert_eq!(outcome_text(Some(Outcome::Exited(-2))), "command exited with code -2");
    assert_eq!(outcome_text(Some(Outcome::Exited(i32::MIN))), "command exited with code -2147483648");
    assert_eq!(
        outcome_text(Some(Outcome::Changed { added: 12, removed: 0 })),
        "12 lines added, 0 removed"
    );
    assert_eq!(outcome_text(None), "");
}

#[test]
fn records_list_newest_first_then_by_key() {
    let ordered = order_records(vec![
        record("b", 5, false),
        record("c", 9, false),
        record("a", 5, true),
        record("d", 1, false),
    ]);
    let keys = ordered.iter().map(|record| record.key.as_str()).collect::<Vec<_>>();
    assert_eq!(keys, vec!["c", "a", "b", "d"]);
    assert!(order_records(Vec::new()).is_empty());
}

#[test]
fn briefs_find_their_latest_result_and_search_text() {
    let records = order_records(vec![record("old", 1, true), record("new", 2, true), record("x", 3, false)]);
    let brief = brief(records);
    assert_eq!(brief.latest_result().map(|record| record.key.as_str()), Some("new"));
    assert_eq!(
        brief.search_text(),
        "Sam Task Editing src/retry.rs Heading x\nText x Heading new\nText new Heading old\nText old"
    );
    assert_eq!(brief.records[0].detail(), "Heading x\nText x");
    let quiet = self::brief(vec![record("x", 3, false)]);
    assert!(quiet.latest_result().is_none());
    assert_eq!(self::brief(Vec::new()).search_text(), "Sam Task Editing src/retry.rs ");
}

#[test]
fn previews_do_not_claim_stale_activity_is_current() {
    let editing = Activity::Editing { detail: "src/retry.rs".into() };
    assert_eq!(work_preview(&editing, 1, true, false, &Vec::new()), "Editing src/retry.rs");
    assert_eq!(work_preview(&editing, 1, true, true, &Vec::new()), "Last recorded: Editing src/retry.rs");
    assert_eq!(work_preview(&editing, 1, false, false, &Vec::new()), "Last recorded: Editing src/retry.rs");
    assert_eq!(work_preview(&editing, 0, false, true, &Vec::new()), "Editing src/retry.rs");
    assert_eq!(
        work_preview(&editing, 1, true, false, &vec![Some("old".into()), Some("tests pass".into())]),
        "Editing src/retry.rs\nLatest result: tests pass"
    );
    assert_eq!(
        work_preview(&editing, 1, true, false, &vec![Some("old".into()), None]),
        "Editing src/retry.rs"
    );
}

#[test]
fn search_text_joins_activity_history_and_messages() {
    let text = searchable_work(
        &Activity::Idle,
        &vec![Activity::Reading { detail: "a.rs".into() }, Activity::Thinking],
        &vec![Some("hello".into()), None, Some("done".into())],
    );
    assert_eq!(
        text,
        "No current activity reported Reading a.rs Processing; no tool activity recorded hello done"
    );
    assert_eq!(searchable_work(&Activity::Thinking, &Vec::new(), &Vec::new()), "Processing; no tool activity recorded");
}
