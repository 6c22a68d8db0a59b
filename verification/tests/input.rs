use theywork_render::input::{EditKey, Input};

#[test]
fn utf8_editing_and_paste_preserve_boundaries() {
    let mut input = Input::default();
    input.paste("hé🦀");
    input.key(EditKey::Left);
    input.key(EditKey::Backspace);
    assert_eq!(input.text, "h🦀");
    input.paste("中");
    assert_eq!(input.text, "h中🦀");
}

#[test]
fn paste_drops_controls_but_keeps_breaks() {
    let mut input = Input::new();
    input.paste("a\u{1b}b\nc\td");
    assert_eq!(input.text, "ab\nc\td");
    assert_eq!(input.cursor(), 6);
}

#[test]
fn cursor_moves_undo_each_other() {
    let mut input = Input::new();
    input.set("abc".to_string());
    assert_eq!(input.cursor(), 3);
    input.key(EditKey::Left);
    input.key(EditKey::Left);
    input.key(EditKey::Right);
    assert_eq!(input.cursor(), 2);
    input.key(EditKey::Home);
    assert_eq!(input.cursor(), 0);
    input.key(EditKey::Delete);
    assert_eq!(input.text, "bc");
    input.key(EditKey::End);
    input.key(EditKey::Char('!', false));
    input.key(EditKey::Char('x', true));
    input.key(EditKey::Enter);
    assert_eq!(input.text, "bc!\n");
    assert_eq!(input.display(), "bc!\n▏");
}

#[test]
fn paste_stops_at_the_field_limit() {
    let mut input = Input::new();
    input.set("x".repeat(15_998));
    input.paste("abcdef");
    assert_eq!(input.text.chars().count(), 16_000);
    assert!(input.text.ends_with("ab"));
}
