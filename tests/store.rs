use github_notifier::snooze_config_store::SnoozeConfigStore;

const NOW: i64 = 1_700_000_000;

#[test]
fn should_suppress_covers_each_combination() {
    // no rule
    let mut s = SnoozeConfigStore::new();
    assert!(!s.should_snooze_for_reason("acme", "widgets", "mention", NOW));
    // only a running repository snooze
    s.snooze_repo("acme", "widgets", NOW + 60);
    assert!(s.should_snooze_for_reason("acme", "widgets", "mention", NOW));
    // a lapsed snooze (until == now) is inactive
    s.snooze_repo("acme", "widgets", NOW);
    assert!(!s.is_repo_snoozed("acme", "widgets", NOW));
    assert!(!s.should_snooze_for_reason("acme", "widgets", "mention", NOW));
    // only a reason toggle
    assert!(s.toggle_reason("acme", "widgets", "mention"));
    assert!(s.should_snooze_for_reason("acme", "widgets", "mention", NOW));
    assert!(!s.should_snooze_for_reason("acme", "widgets", "push", NOW));
    // both
    s.snooze_repo("acme", "widgets", NOW + 60);
    assert!(s.should_snooze_for_reason("acme", "widgets", "mention", NOW));
    assert!(s.should_snooze_for_reason("acme", "widgets", "push", NOW));
    // another repository is untouched
    assert!(!s.should_snooze_for_reason("acme", "gadgets", "mention", NOW));
}

#[test]
fn toggle_reason_twice_is_identity() {
    let mut s = SnoozeConfigStore::new();
    assert!(s.toggle_reason("acme", "widgets", "ci_activity"));
    assert!(s.is_repo_snoozed_for_reason("acme", "widgets", "ci_activity"));
    assert!(!s.toggle_reason("acme", "widgets", "ci_activity"));
    assert!(!s.is_repo_snoozed_for_reason("acme", "widgets", "ci_activity"));
}

#[test]
fn snooze_reason_and_unsnooze_reason() {
    let mut s = SnoozeConfigStore::new();
    s.snooze_reason("acme", "widgets", Some("push"));
    s.snooze_reason("acme", "widgets", Some("push"));
    assert!(s.is_repo_snoozed_for_reason("acme", "widgets", "push"));
    s.snooze_reason("acme", "widgets", None);
    assert!(s.is_repo_snoozed_for_reason("acme", "widgets", ""));
    s.unsooze_reason("acme", "widgets", Some("push"));
    assert!(!s.is_repo_snoozed_for_reason("acme", "widgets", "push"));
    assert!(s.is_repo_snoozed_for_reason("acme", "widgets", ""));
}

#[test]
fn snooze_repo_overwrites_single_row() {
    let mut s = SnoozeConfigStore::new();
    s.snooze_repo("acme", "widgets", NOW + 100);
    s.snooze_repo("acme", "widgets", NOW + 50);
    let all = s.list_all_repos();
    assert_eq!(all, vec![("acme".to_string(), "widgets".to_string())]);
    let active = s.list_snoozed_repos(NOW);
    assert_eq!(active, vec![("acme".to_string(), "widgets".to_string(), NOW + 50)]);
}

#[test]
fn add_repo_never_overwrites_until() {
    let mut s = SnoozeConfigStore::new();
    s.snooze_repo("acme", "widgets", NOW + 100);
    s.add_repo("acme", "widgets");
    assert!(s.is_repo_snoozed("acme", "widgets", NOW));
    s.add_repo("acme", "gadgets");
    s.add_repo("acme", "gadgets");
    assert_eq!(s.list_all_repos().len(), 2);
    assert!(!s.is_repo_snoozed("acme", "gadgets", NOW));
}

#[test]
fn unsnooze_repo_reports_existing_row() {
    let mut s = SnoozeConfigStore::new();
    s.snooze_repo("acme", "widgets", NOW + 100);
    assert!(s.unsnooze_repo("acme", "widgets"));
    assert!(!s.unsnooze_repo("acme", "widgets"));
    assert!(!s.is_repo_snoozed("acme", "widgets", NOW));
    assert!(s.list_all_repos().is_empty());
}

#[test]
fn prune_expired_removes_exactly_lapsed_rows() {
    let mut s = SnoozeConfigStore::new();
    s.snooze_repo("a", "past", NOW - 10);
    s.snooze_repo("a", "now", NOW);
    s.snooze_repo("a", "future", NOW + 10);
    s.add_repo("a", "seen");
    let removed = s.prune_expired(NOW);
    assert_eq!(removed, 2);
    let all = s.list_all_repos();
    assert_eq!(
        all,
        vec![("a".to_string(), "future".to_string()), ("a".to_string(), "seen".to_string())]
    );
    assert!(s.is_repo_snoozed("a", "future", NOW));
    assert_eq!(s.prune_expired(NOW), 0);
}

#[test]
fn prune_expired_on_empty_store() {
    let mut s = SnoozeConfigStore::new();
    assert_eq!(s.prune_expired(NOW), 0);
}

#[test]
fn inventory_is_alphabetical_by_repo_name() {
    let mut s = SnoozeConfigStore::new();
    s.add_repo("zed", "beta");
    s.add_repo("amy", "gamma");
    s.add_repo("bob", "alpha");
    s.add_repo("bob", "Zeta");
    let names: Vec<String> = s.list_all_repos().into_iter().map(|(_, r)| r).collect();
    assert_eq!(names, vec!["Zeta", "alpha", "beta", "gamma"]);
}

#[test]
fn active_snoozes_latest_end_first() {
    let mut s = SnoozeConfigStore::new();
    s.snooze_repo("o", "soon", NOW + 10);
    s.snooze_repo("o", "late", NOW + 1000);
    s.snooze_repo("o", "gone", NOW - 1);
    s.snooze_repo("o", "mid", NOW + 100);
    s.add_repo("o", "plain");
    let active: Vec<(String, i64)> =
        s.list_snoozed_repos(NOW).into_iter().map(|(_, r, u)| (r, u)).collect();
    assert_eq!(
        active,
        vec![
            ("late".to_string(), NOW + 1000),
            ("mid".to_string(), NOW + 100),
            ("soon".to_string(), NOW + 10)
        ]
    );
}
