use theywork_render::meeting::{find_lead, meeting_for, meetings, team_of, Relation};

fn delegation(parent: u64, child: u64) -> Relation {
    Relation { parent, child, delegation: true }
}

#[test]
fn non_delegation_links_form_no_team() {
    let rels = vec![Relation { parent: 1, child: 2, delegation: false }];
    assert!(meeting_for(&rels, &vec![1, 2], &vec![2], Some(1)).is_none());
    assert!(meeting_for(&rels, &vec![1, 2], &vec![2], Some(2)).is_none());
}

#[test]
fn a_delegation_forms_a_team_when_a_member_works() {
    let rels = vec![delegation(1, 2)];
    let group = meeting_for(&rels, &vec![1, 2], &vec![2], Some(2)).expect("team");
    assert_eq!(group.parent, 1);
    assert_eq!(group.members, vec![2]);
    let from_lead = meeting_for(&rels, &vec![1, 2], &vec![2], Some(1)).expect("team");
    assert_eq!(from_lead.parent, 1);
    assert!(meeting_for(&rels, &vec![1, 2], &vec![1], Some(2)).is_none());
    assert!(meeting_for(&rels, &vec![1, 2], &vec![2], None).is_none());
}

#[test]
fn unavailable_or_shared_delegators_cannot_fabricate_a_team() {
    let rels = vec![delegation(9, 2)];
    assert_eq!(find_lead(&rels, &vec![2], 2), None);
    assert!(meeting_for(&rels, &vec![2], &vec![2], Some(2)).is_none());
    let shared = vec![delegation(1, 3), delegation(2, 3)];
    assert_eq!(find_lead(&shared, &vec![1, 2, 3], 3), None);
    assert!(meeting_for(&shared, &vec![1, 2, 3], &vec![3], Some(3)).is_none());
    assert!(team_of(&shared, &vec![1, 2, 3], 1).is_empty());
}

#[test]
fn cyclic_delegation_has_no_lead() {
    let rels = vec![delegation(1, 2), delegation(2, 1)];
    assert_eq!(find_lead(&rels, &vec![1, 2], 1), None);
    assert!(meeting_for(&rels, &vec![1, 2], &vec![1, 2], Some(2)).is_none());
    let own = vec![delegation(4, 4)];
    assert_eq!(find_lead(&own, &vec![4], 4), None);
}

#[test]
fn teams_reach_every_level_once() {
    let rels = vec![delegation(1, 2), delegation(1, 3), delegation(2, 4), delegation(1, 2), delegation(3, 5)];
    let mut team = team_of(&rels, &vec![1, 2, 3, 4, 5], 1);
    team.sort();
    assert_eq!(team, vec![2, 3, 4, 5]);
    assert_eq!(find_lead(&rels, &vec![1, 2, 3, 4, 5], 4), Some(1));
    let partial = team_of(&rels, &vec![1, 2, 3, 5], 1);
    let mut partial = partial;
    partial.sort();
    assert_eq!(partial, vec![2, 3, 5]);
}

#[test]
fn meetings_list_each_lead_once_in_id_order() {
    let rels = vec![delegation(7, 8), delegation(3, 4), delegation(3, 5)];
    let present = vec![8, 4, 5, 7, 3, 9];
    let groups = meetings(&rels, &present, &vec![8, 5]);
    assert_eq!(groups.len(), 2);
    assert_eq!(groups[0].parent, 3);
    assert_eq!(groups[0].members, vec![4, 5]);
    assert_eq!(groups[1].parent, 7);
    assert_eq!(groups[1].members, vec![8]);
    assert!(meetings(&rels, &present, &vec![3, 7]).is_empty());
}
