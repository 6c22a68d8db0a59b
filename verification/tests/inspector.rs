use theywork_render::inspector::{work_actions, InspectorState, WorkAccess, WorkAction};
use theywork_render::views::WorkTab;

#[test]
fn selecting_another_worker_starts_afresh_but_keeps_expansion() {
    let mut state = InspectorState::default();
    state.expanded = true;
    state.select_worker("thread-1");
    state.select_tab(WorkTab::Team);
    state.toggle_actions();
    assert_eq!(state.tab, WorkTab::Team);
    assert!(state.show_actions);
    state.select_worker("thread-1");
    assert_eq!(state.tab, WorkTab::Team);
    assert!(state.show_actions);
    state.select_worker("thread-2");
    assert_eq!(state.tab, WorkTab::Now);
    assert!(!state.show_actions);
    assert!(state.expanded);
    assert_eq!(state.new_count(), 0);
}

#[test]
fn focusing_a_record_opens_activity_and_results_stay_there() {
    let mut state = InspectorState::default();
    state.results();
    assert_eq!(state.tab, WorkTab::Activity);
    assert!(state.results_only);
    state.select_tab(WorkTab::Details);
    assert!(!state.results_only);
    state.focus_record("event-7".to_string());
    assert_eq!(state.tab, WorkTab::Activity);
    assert!(!state.results_only);
    state.scroll(i32::MAX);
    state.scroll(5);
    state.latest();
    assert_eq!(state.new_count(), 0);
}

#[test]
fn a_worker_without_a_request_is_never_offered_a_review() {
    let access = WorkAccess {
        send: true,
        native: true,
        interrupt: true,
        reconnect: false,
    };
    let (primary, secondary) = work_actions(false, access, false, false, true);
    assert_eq!(
        primary,
        vec![WorkAction::Instruct, WorkAction::TaskActions, WorkAction::Expand]
    );
    assert_eq!(secondary, vec![WorkAction::Character, WorkAction::Stop]);
    let (primary, secondary) = work_actions(true, access, false, true, true);
    assert_eq!(
        primary,
        vec![WorkAction::Review, WorkAction::TaskActions, WorkAction::Collapse]
    );
    assert_eq!(
        secondary,
        vec![
            WorkAction::OpenConversation,
            WorkAction::Instruct,
            WorkAction::Character,
            WorkAction::Stop
        ]
    );
    let (primary, secondary) = work_actions(false, WorkAccess { send: false, native: true, interrupt: false, reconnect: true }, true, false, true);
    assert_eq!(primary, vec![WorkAction::OpenConversation, WorkAction::Expand]);
    assert!(secondary.is_empty());
    assert_eq!(WorkAction::Review.label(), "Review request");
}
