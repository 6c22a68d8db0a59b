use ratatui::text::{Line, Span};
use theywork_render::text::{
    duration_label, elapsed_ms, tail,
    char_cells, human_tokens, person_count, safe_display, safe_multiline, short_path, text_width,
    wrap_text, wrapped_lines,
};

#[test]
fn token_labels_use_human_units() {
    assert_eq!(human_tokens(136_934_015), "136.9M");
    assert_eq!(human_tokens(4_900_000), "4.9M");
    assert_eq!(human_tokens(0), "0");
}

#[test]
fn token_labels_cover_every_unit() {
    assert_eq!(human_tokens(999), "999");
    assert_eq!(human_tokens(1_500), "1.5K");
    assert_eq!(human_tokens(2_000_000_000), "2B");
    assert_eq!(human_tokens(7_250_000_000_000), "7.2T");
}

#[test]
fn safe_display_replaces_controls_and_emoji() {
    let safe = safe_display("worker 😀 🛠️\n");
    assert!(safe.contains('·'));
    assert!(safe.chars().all(|character| {
        let code = character as u32;
        !character.is_control()
            && !(0x1f000..=0x1faff).contains(&code)
            && !(0x2600..=0x27bf).contains(&code)
            && code != 0xfe0f
    }));
}

#[test]
fn safe_text_keeps_length_and_line_breaks() {
    assert_eq!(safe_display("a\tb"), "a·b");
    assert_eq!(safe_display("plain"), "plain");
    assert_eq!(safe_multiline("one\u{7}\ntwo"), "one·\ntwo");
    let input = "x😀y";
    assert_eq!(safe_display(input).chars().count(), input.chars().count());
}

#[test]
fn short_path_never_splits_utf8_and_respects_tiny_widths() {
    let long_ascii = "x".repeat(200);
    let elided = short_path(&long_ascii, 16);
    assert_eq!(elided.chars().count(), 16);
    assert!(elided.ends_with("…"));

    assert_eq!(short_path("abcdefghijk", 6), "abcde…");
    let unicode = "界🛠️é".repeat(80);
    for width in 0..=16 {
        assert!(
            Line::from(short_path(&unicode, width)).width() <= width,
            "elided text exceeded width {width}"
        );
    }
    assert_eq!(short_path(&unicode, 1), "…");
    assert_eq!(short_path(&unicode, 2), "…");
}

#[test]
fn short_path_keeps_a_path_that_fits() {
    assert_eq!(short_path("/tmp/a", 10), "/tmp/a");
}

#[test]
fn wrapped_context_preserves_title_and_unicode_at_narrow_widths() {
    let title = "Review producción café 東京 with the final distinguishing suffix";
    for width in [1, 8, 25, 60] {
        let lines = wrapped_lines(title, width);
        assert_eq!(lines.concat(), title);
        assert!(lines
            .iter()
            .all(|line| Span::raw(line).width() <= width.max(2)));
    }
}

#[test]
fn wrapping_breaks_after_the_last_space() {
    assert_eq!(wrapped_lines("alpha beta", 7), vec!["alpha ", "beta"]);
    assert_eq!(wrapped_lines("", 5), vec![""]);
}

#[test]
fn wrap_text_wraps_each_paragraph() {
    assert_eq!(wrap_text("ab\ncd ef", 3), vec!["ab", "cd ", "ef"]);
    assert_eq!(wrap_text("x\n", 0), vec!["x", ""]);
    assert_eq!(wrap_text("", 4), vec![""]);
}

#[test]
fn widths_come_from_the_terminal_tables() {
    assert_eq!(text_width("東京"), 4);
    assert_eq!(text_width("abc"), 3);
    assert_eq!(char_cells('界'), 2);
    assert_eq!(char_cells('a'), 1);
}

#[test]
fn people_are_counted_in_words() {
    assert_eq!(person_count(1), "1 person");
    assert_eq!(person_count(0), "0 people");
    assert_eq!(person_count(12), "12 people");
}

#[test]
fn durations_read_in_seconds_then_minutes() {
    assert_eq!(duration_label(0), "0s");
    assert_eq!(duration_label(59_999), "59s");
    assert_eq!(duration_label(60_000), "1m 00s");
    assert_eq!(duration_label(187_000), "3m 07s");
    assert_eq!(duration_label(3_600_000), "60m 00s");
    assert_eq!(duration_label(-5_000), "0s");
}

#[test]
fn elapsed_time_never_runs_backwards() {
    assert_eq!(elapsed_ms(5_000, 2_000), 3_000);
    assert_eq!(elapsed_ms(2_000, 5_000), 0);
    assert_eq!(elapsed_ms(i64::MAX, i64::MIN), i64::MAX);
    assert_eq!(elapsed_ms(i64::MIN, 1), 0);
}

#[test]
fn tails_keep_the_end_of_an_over_wide_text() {
    assert_eq!(tail("abc", 5), "abc");
    assert_eq!(tail("abcdef", 6), "abcdef");
    assert_eq!(tail("abcdef", 4), "…def");
    assert_eq!(tail("/home/dev/projects/office", 10), "…ts/office");
    assert_eq!(tail("abc", 0), "…");
    assert_eq!(tail("日本語テキスト", 7), "…キスト");
}
