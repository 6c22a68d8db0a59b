use theywork_render::finder::{
    contains_text, search, split_words, Entry, Finder, FinderKey, Target,
};

fn project(path: &str, name: &str) -> Entry {
    let title = name.to_string();
    Entry {
        target: Target::Project(path.to_string()),
        searchable: format!("{title} {path} project floor").to_lowercase(),
        title,
        context: String::new(),
        path: path.to_string(),
        badge: "PROJECT".to_string(),
        status: None,
    }
}

fn worker(path: &str, id: &str, title: &str) -> Entry {
    let title = title.to_string();
    Entry {
        target: Target::Worker(path.to_string(), id.to_string()),
        searchable: format!("{title} {path} codex idle ready feature/search").to_lowercase(),
        title,
        context: String::new(),
        path: path.to_string(),
        badge: "Ready".to_string(),
        status: None,
    }
}

fn press(finder: &mut Finder, key: FinderKey) -> Option<Target> {
    finder.handle_key(key)
}

fn query(finder: &mut Finder, text: &str) {
    finder.handle_key(FinderKey::ClearLine);
    for character in text.chars() {
        press(finder, FinderKey::Char(character, false));
    }
}

fn selected_title(finder: &Finder) -> String {
    finder.entries()[finder.matches()[finder.selected()]].title.clone()
}

#[test]
fn search_distinguishes_duplicate_projects_and_prioritizes_exact_task_titles() {
    let mut finder = Finder::default();
    finder.show();
    finder.refresh(vec![
        project("/clients/blue/api", "api"),
        worker("/clients/blue/api", "blue", "Fix login regression"),
        project("/clients/red/api", "api"),
        worker("/clients/red/api", "red", "Fix login"),
    ]);
    assert_eq!(finder.matches().len(), 2, "empty search is a project directory");
    query(&mut finder, "clients/red");
    assert_eq!(finder.matches().len(), 2, "project and its worker share the path");
    query(&mut finder, "fix login");
    assert_eq!(
        finder.selected_target(),
        Some(Target::Worker("/clients/red/api".into(), "red".into()))
    );
    query(&mut finder, "codex regression");
    assert_eq!(finder.matches().len(), 1);
    assert_eq!(selected_title(&finder), "Fix login regression");
    query(&mut finder, "feature/search");
    assert_eq!(finder.matches().len(), 2);
}

#[test]
fn refresh_preserves_identity_when_live_results_shift() {
    let mut entries = Vec::new();
    for index in 1..=20 {
        let path = format!("/project-{index:02}");
        entries.push(project(&path, &path[1..]));
        entries.push(worker(&path, &format!("w{index}"), "Review tests"));
    }
    let mut finder = Finder::default();
    finder.show();
    finder.refresh(entries);
    finder.set_page_size(8);
    press(&mut finder, FinderKey::PageDown);
    let selected = finder.selected_target();
    assert!(selected.is_some());
    let mut shifted = vec![project("/aaa", "aaa"), worker("/aaa", "new", "Review tests")];
    for index in 1..=20 {
        let path = format!("/project-{index:02}");
        shifted.push(project(&path, &path[1..]));
        shifted.push(worker(&path, &format!("w{index}"), "Review tests"));
    }
    finder.refresh(shifted);
    assert_eq!(finder.selected_target(), selected);
    assert_eq!(press(&mut finder, FinderKey::Enter), selected);
    assert!(!finder.open);
}

#[test]
fn unicode_editing_and_narrow_cursor_remain_in_bounds() {
    let mut finder = Finder::default();
    finder.show();
    query(&mut finder, "diseño界");
    press(&mut finder, FinderKey::Left);
    press(&mut finder, FinderKey::Backspace);
    assert_eq!(finder.query_text(), "diseñ界");
    press(&mut finder, FinderKey::Delete);
    assert_eq!(finder.query_text(), "diseñ");
    press(&mut finder, FinderKey::Home);
    press(&mut finder, FinderKey::Char('é', false));
    assert_eq!(finder.query_text(), "édiseñ");
    press(&mut finder, FinderKey::End);
    query(&mut finder, &"ñ界".repeat(120));
    assert_eq!(finder.query_text().chars().count(), 240);
    finder.set_page_size(0);
    assert_eq!(
        press(&mut finder, FinderKey::Enter),
        None,
        "tiny view must not open an invisible selection"
    );
    press(&mut finder, FinderKey::Esc);
    assert!(!finder.open);
}

#[test]
fn paste_is_bounded_text_and_never_a_navigation_key() {
    let mut finder = Finder::default();
    finder.show();
    finder.paste("qcs?\n界\u{1b}");
    assert_eq!(finder.query_text(), "qcs? 界");
    assert!(finder.open);
    press(&mut finder, FinderKey::Home);
    finder.paste("API ");
    assert_eq!(finder.query_text(), "API qcs? 界");
    finder.paste(&"x".repeat(300));
    assert_eq!(finder.query_text().chars().count(), 256);
}

#[test]
fn typing_stops_at_the_query_limit_and_ignores_modified_keys() {
    let mut finder = Finder::new();
    finder.show();
    finder.paste(&"y".repeat(256));
    press(&mut finder, FinderKey::Char('z', false));
    assert_eq!(finder.query_text().chars().count(), 256);
    press(&mut finder, FinderKey::ClearLine);
    press(&mut finder, FinderKey::Char('u', true));
    assert_eq!(finder.query_text(), "");
    press(&mut finder, FinderKey::Char('\u{7}', false));
    assert_eq!(finder.query_text(), "");
}

#[test]
fn selection_moves_within_the_results() {
    let mut finder = Finder::new();
    finder.show();
    finder.refresh((0..5).map(|i| project(&format!("/p{i}"), "p")).collect());
    finder.set_page_size(2);
    press(&mut finder, FinderKey::Down);
    assert_eq!(finder.selected(), 1);
    press(&mut finder, FinderKey::PageDown);
    assert_eq!(finder.selected(), 3);
    press(&mut finder, FinderKey::PageDown);
    assert_eq!(finder.selected(), 4);
    press(&mut finder, FinderKey::Up);
    assert_eq!(finder.selected(), 3);
    press(&mut finder, FinderKey::PageUp);
    assert_eq!(finder.selected(), 1);
    press(&mut finder, FinderKey::PageUp);
    assert_eq!(finder.selected(), 0);
}

#[test]
fn words_and_substrings() {
    let words = split_words(&"  fix \t login\u{3000}now ".chars().collect());
    let words: Vec<String> = words.iter().map(|w| w.iter().collect()).collect();
    assert_eq!(words, vec!["fix", "login", "now"]);
    let hay: Vec<char> = "feature/search".chars().collect();
    assert!(contains_text(&hay, &"/sea".chars().collect()));
    assert!(!contains_text(&hay, &"seek".chars().collect()));
    assert!(contains_text(&hay, &Vec::new()));
}

#[test]
fn ranked_results_put_exact_titles_first() {
    let entries = vec![
        worker("/a", "1", "fix login regression"),
        worker("/b", "2", "login fix"),
        worker("/c", "3", "fix login"),
        worker("/d", "4", "other"),
    ];
    let titles: Vec<Vec<char>> = entries.iter().map(|e| e.title.chars().collect()).collect();
    let order = search(&entries, &titles, &"fix login".chars().collect());
    assert_eq!(order, vec![2, 0, 1]);
    let none = search(&entries, &titles, &Vec::new());
    assert!(none.is_empty());
}

#[test]
fn the_view_lays_out_the_popup_summary_and_result_rows() {
    let mut finder = Finder::default();
    finder.show();
    finder.refresh(vec![
        project("/clients/blue/api", "api"),
        worker("/clients/blue/api", "blue", "Fix login regression"),
        project("/clients/red/web", "web"),
    ]);
    let view = finder.view(80, 30);
    let popup = view.popup.unwrap();
    assert_eq!(
        (popup.x, popup.y, popup.width, popup.height),
        (2, 2, 76, 25)
    );
    assert_eq!(view.page_size, 9);
    assert_eq!(
        view.query_line,
        "/ Project, task, provider or state\u{2026}"
    );
    assert_eq!(view.summary, "2 projects \u{b7} type to find conversations");
    assert_eq!(view.rows.len(), 2);
    let first = &view.rows[0];
    assert!(first.selected);
    assert!(first.line.starts_with("> "));
    assert_eq!(first.badge, "PROJECT");
    assert_eq!(
        (first.area.x, first.area.y, first.area.width, first.area.height),
        (3, 5, 74, 2)
    );
    assert_eq!(
        (first.badge_area.x, first.badge_area.y, first.badge_area.width),
        (3 + 74 - 9, 5, 9)
    );
    let second = &view.rows[1];
    assert!(!second.selected);
    assert!(second.line.starts_with("  "));
    assert_eq!(second.area.y, 7);
    assert!(view.help.starts_with("\u{2191}\u{2193} choose"));
    assert!(!view.path.is_empty());
}

#[test]
fn a_search_summarises_its_matches_and_a_small_terminal_has_no_popup() {
    let mut finder = Finder::default();
    finder.show();
    finder.refresh(vec![
        project("/clients/blue/api", "api"),
        worker("/clients/blue/api", "blue", "Fix login regression"),
    ]);
    query(&mut finder, "fix");
    let view = finder.view(80, 30);
    assert_eq!(view.summary, "1 match \u{b7} 1\u{2013}1");
    assert_eq!(view.query_line, "/ fix");
    let small = finder.view(30, 12);
    assert!(small.popup.is_none());
    assert!(small.rows.is_empty());
}
