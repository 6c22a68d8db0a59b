use theywork_render::control::{
    Action, Agent, Choice, Command, ControlStatus, KeyPress, PanelKey, Question, Request, TaskAccess,
};
use theywork_render::layout::Rect;
use theywork_render::panel::ControlPanel;

fn ready_panel() -> ControlPanel {
    let mut panel = ControlPanel::new();
    panel.set_usable_geometry(true);
    panel
}

fn key(code: PanelKey) -> KeyPress {
    KeyPress::plain(code)
}

fn json(text: &str) -> serde_json::Value {
    serde_json::from_str(text).unwrap()
}

fn approval(id: &str) -> Request {
    Request {
        id: id.into(),
        worker: "a".into(),
        origin: "Project A / task A".into(),
        title: "Approval".into(),
        detail: "A concrete command".into(),
        choices: vec![Choice {
            label: "Allow once".into(),
            response: r#"{"decision":"accept"}"#.into(),
        }],
        questions: vec![],
    }
}

fn status_with(requests: Vec<Request>) -> ControlStatus {
    ControlStatus {
        requests,
        ..Default::default()
    }
}

fn draw_panel(panel: &mut ControlPanel, width: u16, height: u16) {
    panel.present(Rect::new(0, 0, width, height));
}

#[test]
fn drafts_keep_their_target_and_typing_cannot_trigger_commands() {
    let mut panel = ready_panel();
    panel.show_task("a".into(), "A".into(), Agent::Codex);
    panel.paste("fix a");
    panel.show_task("b".into(), "B".into(), Agent::Codex);
    panel.paste("fix b");
    panel.show_task("a".into(), "A".into(), Agent::Codex);
    assert_eq!(panel.message(), "fix a");
    assert!(panel.handle_key(key(PanelKey::Char('q'))).is_none());
    assert!(panel.open);
}

#[test]
fn a_replacement_request_requires_deliberate_selection() {
    let mut panel = ready_panel();
    panel.show_task("a".into(), "A".into(), Agent::Codex);
    panel.set_status(status_with(vec![approval("old")]));
    panel.handle_key(key(PanelKey::F(4)));
    panel.set_status(status_with(vec![approval("new")]));
    assert!(panel.handle_key(key(PanelKey::Char('1'))).is_none());
    panel.handle_key(key(PanelKey::Down));
    assert_eq!(
        panel.handle_key(key(PanelKey::Char('1'))),
        Some(Command::Reply {
            request: "new".into(),
            response: r#"{"decision":"accept"}"#.into()
        })
    );
    assert!(
        panel.handle_key(key(PanelKey::Char('1'))).is_none(),
        "an unacknowledged reply is not sent twice"
    );
}

#[test]
fn structured_answers_preserve_request_and_question_ids() {
    let mut request = approval("q-1");
    request.choices.clear();
    request.questions = vec![
        Question {
            id: "language".into(),
            prompt: "Language?".into(),
            options: vec!["Rust".into()],
            secret: false,
        },
        Question {
            id: "name".into(),
            prompt: "Name?".into(),
            options: vec![],
            secret: false,
        },
    ];
    let mut panel = ready_panel();
    panel.show_task("a".into(), "A".into(), Agent::Codex);
    panel.set_status(status_with(vec![request]));
    panel.handle_key(key(PanelKey::F(4)));
    panel.handle_key(key(PanelKey::F(6)));
    assert!(
        panel.handle_key(key(PanelKey::F(5))).is_none(),
        "all questions must be answered"
    );
    panel.handle_key(key(PanelKey::Tab));
    panel.paste("Café");
    match panel.handle_key(key(PanelKey::F(5))) {
        Some(Command::Reply { request, response }) => {
            assert_eq!(request, "q-1");
            assert_eq!(
                json(&response),
                json(r#"{"answers":{"language":{"answers":["Rust"]},"name":{"answers":["Café"]}}}"#)
            );
        }
        other => panic!("expected a reply, got {other:?}"),
    }
}

#[test]
fn acknowledgement_cannot_clear_another_tasks_draft() {
    let mut panel = ready_panel();
    panel.show_task("b".into(), "B".into(), Agent::Codex);
    panel.paste("Keep B");
    panel.show_task("a".into(), "A".into(), Agent::Codex);
    panel.paste("Send A");
    panel.status.tasks.push((
        "a".into(),
        TaskAccess {
            send: true,
            ..Default::default()
        },
    ));
    assert!(
        matches!(panel.handle_key(key(PanelKey::F(5))), Some(Command::Send { worker, .. }) if worker == "a")
    );
    panel.handle_key(key(PanelKey::Esc));
    panel.show_task("b".into(), "B".into(), Agent::Codex);
    panel.complete("Confirmed".into(), true);
    assert_eq!(panel.message(), "Keep B");
    panel.show_task("a".into(), "A".into(), Agent::Codex);
    assert!(panel.message().is_empty());
}

#[test]
fn new_task_drafts_stay_with_their_provider_and_project() {
    let mut panel = ready_panel();
    panel.show_new("/project-a".into());
    panel.paste("Codex A");
    panel.show_new("/project-b".into());
    assert!(panel.message().is_empty());
    panel.paste("Codex B");
    // Tab from instruction returns to provider, where Right selects the other one.
    panel.handle_key(key(PanelKey::Tab));
    panel.handle_key(key(PanelKey::Right));
    assert_eq!(panel.provider, Agent::Claude);
    assert!(panel.message().is_empty());
    panel.handle_key(key(PanelKey::Tab));
    panel.handle_key(key(PanelKey::Tab));
    panel.paste("Second provider B");
    panel.show_new("/project-a".into());
    assert!(panel.message().is_empty());
    panel.handle_key(key(PanelKey::Tab));
    panel.handle_key(key(PanelKey::Left));
    assert_eq!(panel.message(), "Codex A");
    panel.show_new("/project-b".into());
    assert_eq!(panel.message(), "Codex B");
}

#[test]
fn request_buttons_capture_exact_identity_and_reject_replacement_or_changed_choices() {
    let mut panel = ready_panel();
    panel.show_requests(Some("a".into()));
    panel.set_status(status_with(vec![approval("old")]));
    draw_panel(&mut panel, 40, 24);
    assert!(panel.requests_open());
    assert_eq!(panel.heading(), "REVIEW REQUEST");
    assert_ne!(panel.heading(), "NEW TASK");
    let command = panel
        .hit_regions()
        .iter()
        .find_map(|hit| match &hit.action {
            Action::Control(command @ Command::Reply { .. }) => Some(command.clone()),
            _ => None,
        })
        .unwrap();
    assert!(!panel
        .hit_regions()
        .iter()
        .any(|hit| matches!(hit.action, Action::Key(PanelKey::Char('1'..='9')))));
    panel.set_status(status_with(vec![approval("new")]));
    assert!(panel.activate(command.clone()).is_none());
    panel.show_requests(Some("a".into()));
    let mut changed = approval("old");
    changed.choices[0].response = r#"{"decision":"decline"}"#.into();
    panel.set_status(status_with(vec![changed]));
    assert!(panel.activate(command).is_none());
}

#[test]
fn tab_focus_activates_the_visible_request_button_and_prevents_double_reply() {
    let mut panel = ready_panel();
    panel.show_requests(Some("a".into()));
    panel.set_status(status_with(vec![approval("current")]));
    draw_panel(&mut panel, 40, 24);
    panel.handle_key(key(PanelKey::Tab));
    assert!(
        matches!(panel.handle_key(key(PanelKey::Enter)), Some(Command::Reply { request, .. }) if request == "current")
    );
    assert!(panel.handle_key(key(PanelKey::Enter)).is_none());
}

#[test]
fn operational_hits_follow_current_capabilities_and_never_promote_observed_tasks() {
    let mut panel = ready_panel();
    panel.show_task("a".into(), "Observed".into(), Agent::Codex);
    panel.status.tasks.push((
        "a".into(),
        TaskAccess {
            native: true,
            description: "Open the conversation in its own client".into(),
            ..Default::default()
        },
    ));
    draw_panel(&mut panel, 40, 24);
    assert!(panel
        .hit_regions()
        .iter()
        .any(|hit| matches!(hit.action, Action::Control(Command::OpenNative { .. }))));
    assert!(!panel.hit_regions().iter().any(|hit| matches!(
        hit.action,
        Action::Control(Command::Interrupt { .. } | Command::Send { .. })
    )));
    assert!(panel
        .activate(Command::Interrupt { worker: "a".into() })
        .is_none());
    panel.status.tasks.clear();
    assert!(panel
        .activate(Command::OpenNative { worker: "a".into() })
        .is_none());
}

#[test]
fn project_picker_keeps_the_full_known_path_and_connections_offer_sources() {
    let mut panel = ready_panel();
    panel.set_projects(vec![(
        "Team project".into(),
        "/work/project with spaces".into(),
    )]);
    panel.show_new(String::new());
    panel.handle_key(key(PanelKey::F(7)));
    draw_panel(&mut panel, 40, 24);
    assert_eq!(panel.projects()[0].1, "/work/project with spaces");
    assert!(panel
        .hit_regions()
        .iter()
        .any(|hit| hit.action == Action::ControlProject("/work/project with spaces".into())));
    panel.select_project("/work/project with spaces".into());
    assert_eq!(panel.project(), "/work/project with spaces");
    panel.select_project("/not-known".into());
    assert_eq!(panel.project(), "/work/project with spaces");
    panel.show_connections();
    draw_panel(&mut panel, 40, 24);
    assert!(panel.buttons().iter().any(|(label, _)| label == "Local sources"));
    assert!(panel
        .hit_regions()
        .iter()
        .any(|hit| hit.action == Action::Control(Command::Sources)));
    assert_eq!(panel.activate(Command::Sources), Some(Command::Sources));
    assert!(!panel.busy());
}

#[test]
fn project_picker_disambiguates_equal_names_and_removes_non_adjacent_duplicate_paths() {
    let mut panel = ready_panel();
    panel.set_projects(vec![
        ("A".into(), "/team-a/project".into()),
        ("Project".into(), "/team-b/project".into()),
        ("Project".into(), "/team-c/project".into()),
        ("Z".into(), "/team-a/project".into()),
    ]);
    assert_eq!(panel.projects().len(), 3);
    panel.show_new(String::new());
    panel.handle_key(key(PanelKey::F(7)));
    panel.handle_key(key(PanelKey::Down));
    draw_panel(&mut panel, 40, 24);
    assert_eq!(panel.projects()[panel.project_index()].1, "/team-b/project");
    panel.handle_key(key(PanelKey::Down));
    draw_panel(&mut panel, 40, 24);
    assert_eq!(panel.projects()[panel.project_index()].1, "/team-c/project");
    panel.handle_key(key(PanelKey::Enter));
    assert_eq!(panel.project(), "/team-c/project");
}

#[test]
fn tab_can_return_from_buttons_to_fields_without_editing_a_hidden_draft() {
    let mut panel = ready_panel();
    panel.status.can_start_codex = true;
    panel.show_new("/project".into());
    panel.paste("Keep this instruction");
    draw_panel(&mut panel, 40, 24);
    panel.handle_key(key(PanelKey::Tab));
    assert_eq!(panel.button_focus(), Some(0));
    panel.handle_key(key(PanelKey::Char('x')));
    panel.paste("ignored paste");
    assert_eq!(panel.message(), "Keep this instruction");
    for _ in 0..panel.buttons().len() {
        panel.handle_key(key(PanelKey::Tab));
    }
    assert_eq!(panel.button_focus(), None);
    assert_eq!(panel.field(), 0);
    panel.handle_key(key(PanelKey::Right));
    assert_eq!(panel.provider, Agent::Claude);
    assert!(panel.message().is_empty());
}

#[test]
fn keys_wait_while_a_command_is_with_the_host() {
    let mut panel = ready_panel();
    panel.show_task("a".into(), "A".into(), Agent::Codex);
    panel.status.tasks.push((
        "a".into(),
        TaskAccess {
            send: true,
            interrupt: true,
            ..Default::default()
        },
    ));
    panel.paste("go");
    assert!(panel.handle_key(key(PanelKey::F(5))).is_some());
    assert!(panel.busy());
    assert!(panel.handle_key(key(PanelKey::F(2))).is_none());
    panel.complete("Done".into(), true);
    assert!(!panel.busy());
    assert_eq!(panel.status.notice, "Done");
    assert!(panel.message().is_empty());
    assert_eq!(
        panel.handle_key(key(PanelKey::F(2))),
        Some(Command::Interrupt { worker: "a".into() })
    );
}

#[test]
fn blank_instructions_and_unavailable_providers_are_refused_with_a_notice() {
    let mut panel = ready_panel();
    panel.show_new("/project".into());
    assert!(panel.handle_key(key(PanelKey::F(5))).is_none());
    assert_eq!(panel.status.notice, "Write an instruction first.");
    panel.paste("do it");
    panel.status.codex_name = "Codex".into();
    panel.status.codex = "offline".into();
    assert!(panel.handle_key(key(PanelKey::F(5))).is_none());
    assert_eq!(panel.status.notice, "Codex creation unavailable: offline");
    panel.status.can_start_codex = true;
    assert_eq!(
        panel.handle_key(key(PanelKey::F(5))),
        Some(Command::Start {
            provider: Agent::Codex,
            project: "/project".into(),
            prompt: "do it".into()
        })
    );
    assert_eq!(
        panel.status.notice,
        "Sending to Codex / /project \u{b7} waiting for confirmation"
    );
}

#[test]
fn a_small_panel_takes_no_keys() {
    let mut panel = ControlPanel::new();
    panel.show_task("a".into(), "A".into(), Agent::Codex);
    draw_panel(&mut panel, 27, 24);
    panel.handle_key(key(PanelKey::Char('x')));
    assert!(panel.message().is_empty());
    draw_panel(&mut panel, 40, 24);
    panel.handle_key(key(PanelKey::Char('x')));
    assert_eq!(panel.message(), "x");
}

#[test]
fn answers_are_written_as_escaped_json_text() {
    let mut request = approval("r");
    request.choices.clear();
    request.questions = vec![Question {
        id: "q".into(),
        prompt: "Say?".into(),
        options: vec![],
        secret: false,
    }];
    let mut panel = ready_panel();
    panel.show_task("a".into(), "A".into(), Agent::Codex);
    panel.set_status(status_with(vec![request]));
    panel.handle_key(key(PanelKey::F(4)));
    panel.paste("say \"hi\"\\\ttab");
    assert_eq!(
        panel.handle_key(key(PanelKey::F(5))),
        Some(Command::Reply {
            request: "r".into(),
            response: "{\"answers\":{\"q\":{\"answers\":[\"say \\\"hi\\\"\\\\\\ttab\"]}}}".into()
        })
    );
}
