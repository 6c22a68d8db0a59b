use std::collections::BTreeMap;
use theywork_render::markers::{Markers, ReviewMemory};

#[test]
fn local_markers_round_trip_and_have_a_bound() {
    let mut state = ReviewMemory::default();
    for n in 0..5000 {
        state.reviewed.insert(format!("r{n}"), n);
    }
    state.prune();
    let stored: BTreeMap<String, i64> = state.reviewed.entries().iter().cloned().collect();
    let decoded: BTreeMap<String, i64> =
        serde_json::from_slice(&serde_json::to_vec(&stored).unwrap()).unwrap();
    assert_eq!(decoded.len(), 4096);
    assert!(!decoded.contains_key("r0"));
    assert_eq!(state.version, 1);
}

#[test]
fn markers_keep_key_order_and_replace_times() {
    let mut markers = Markers::new();
    markers.insert("b".to_string(), 2);
    markers.insert("a".to_string(), 1);
    markers.insert("c".to_string(), 3);
    markers.insert("b".to_string(), 7);
    assert_eq!(markers.len(), 3);
    assert_eq!(markers.get("b"), Some(7));
    assert_eq!(markers.get("z"), None);
    assert!(markers.contains_key("a"));
    let keys: Vec<&str> = markers.entries().iter().map(|(k, _)| k.as_str()).collect();
    assert_eq!(keys, vec!["a", "b", "c"]);
}

#[test]
fn pruning_drops_the_oldest_and_breaks_ties_by_key() {
    let mut markers = Markers::new();
    markers.insert("d".to_string(), 5);
    markers.insert("c".to_string(), 1);
    markers.insert("b".to_string(), 1);
    markers.insert("a".to_string(), 9);
    markers.prune_to(2);
    let kept: Vec<(String, i64)> = markers.entries().clone();
    assert_eq!(kept, vec![("a".to_string(), 9), ("d".to_string(), 5)]);
    markers.prune_to(5);
    assert_eq!(markers.len(), 2);
    markers.prune_to(1);
    assert_eq!(markers.get("a"), Some(9));
    assert_eq!(markers.len(), 1);
}

#[test]
fn pruning_leaves_visits_alone() {
    let mut state = ReviewMemory::new();
    for n in 0..4100 {
        state.last_visits.insert(format!("v{n}"), n);
        state.acknowledged.insert(format!("k{n}"), 4100 - n);
    }
    state.prune();
    assert_eq!(state.last_visits.len(), 4100);
    assert_eq!(state.acknowledged.len(), 4096);
    assert!(!state.acknowledged.contains_key("k4099"));
    assert!(state.acknowledged.contains_key("k0"));
}
