use theywork_render::reading::ReadingAnchor;

#[test]
fn anchor_counts_new_records_without_losing_selected_identity() {
    let mut anchor = ReadingAnchor::default();
    anchor.latest();
    anchor.observe(vec!["one".into(), "two".into()]);
    anchor.key = Some("one".into());
    anchor.following = false;
    anchor.line = 2;
    anchor.observe(vec!["new".into(), "one".into(), "two".into()]);
    assert_eq!(anchor.key.as_deref(), Some("one"));
    assert_eq!(anchor.line, 2);
    assert_eq!(anchor.new_count(), 1);
    anchor.observe(vec!["new".into(), "two".into()]);
    assert!(anchor.expired);
    anchor.latest();
    assert_eq!(anchor.new_count(), 0);
}

#[test]
fn seen_records_are_not_counted_again() {
    let mut anchor = ReadingAnchor::new();
    anchor.observe(vec!["a".into()]);
    anchor.observe(vec!["b".into(), "a".into()]);
    anchor.observe(vec!["b".into(), "a".into()]);
    assert_eq!(anchor.new_count(), 1);
    anchor.observe(vec!["a".into()]);
    assert_eq!(anchor.new_count(), 0);
}
