use std::collections::BTreeSet;
use theywork_render::sign::{
    compact_glyph, compact_sign_lines, compact_sign_width, glyph_5x7, project_label, sign_lines,
    unique_plate_name, worker_plate_name,
};

#[test]
fn project_labels_are_safe_and_split_without_ellipsis() {
    assert_eq!(project_label("/workspace/they-work"), "THEY-WORK");
    let longish = project_label("/workspace/beta-platform");
    assert_eq!(longish, "BETA-PLATFORM");
    assert_eq!(sign_lines(&longish), vec!["BETA-PLATFORM"]);
    let label = project_label("/workspace/very-long-project-name/with spaces");
    assert!(label.contains('·'));
    assert_eq!(sign_lines(&label).len(), 1);
    let long_label = project_label("/workspace/very-long-project-name");
    let lines = sign_lines(&long_label);
    assert!(lines.iter().all(|line| !line.contains('…')));
    assert_eq!(lines.len(), 2);
    assert_ne!(glyph_5x7('·'), [0; 7]);
}

#[test]
fn sign_lines_keep_every_letter() {
    let label = project_label("/workspace/very-long-project-name");
    assert_eq!(sign_lines(&label).concat(), label);
    assert_eq!(project_label("/a/b/"), "B");
}

#[test]
fn compact_signs_chunk_by_width() {
    assert_eq!(compact_sign_width("ABC"), 11);
    assert_eq!(compact_sign_width(""), 0);
    assert_eq!(compact_sign_lines("ABCDEFG", 11), vec!["ABC", "DEF", "G"]);
    assert_eq!(compact_glyph('a'), compact_glyph('A'));
}

#[test]
fn worker_plate_names_preserve_distinguishing_suffixes() {
    let labels = (0..5)
        .map(|index| worker_plate_name(&format!("they-work worker {index}"), "they-work"))
        .collect::<Vec<_>>();
    assert_eq!(
        labels,
        vec!["worker 0", "worker 1", "worker 2", "worker 3", "worker 4"]
    );
    assert_eq!(
        labels
            .iter()
            .collect::<BTreeSet<_>>()
            .len(),
        labels.len()
    );
}

#[test]
fn shared_prefixes_and_duplicate_titles_keep_distinguishable_nameplates() {
    let names = [
        "Daily POD Gmail Reconciliation - deliveries",
        "Daily POD Gmail Reconciliation - invoices",
        "Daily POD Gmail Reconciliation - receipts",
    ];
    let ids: Vec<String> = (0..names.len())
        .map(|index| format!("conversation-{index}"))
        .collect();
    let mut titles: Vec<String> = names.iter().map(|name| name.to_string()).collect();
    for width in [10, 18, 26] {
        let labels = (0..titles.len())
            .map(|slot| unique_plate_name(&ids, &titles, slot, "project", width))
            .collect::<BTreeSet<_>>();
        assert_eq!(labels.len(), titles.len());
        assert!(labels.iter().all(|label| label.chars().count() <= width));
    }
    for title in &mut titles {
        *title = "Identical title".into();
    }
    let labels = (0..titles.len())
        .map(|slot| unique_plate_name(&ids, &titles, slot, "project", 18))
        .collect::<BTreeSet<_>>();
    assert_eq!(labels.len(), titles.len());
    assert!(labels.iter().all(|label| label.contains('#')));
}
