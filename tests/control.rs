use github_notifier::snooze_config_store::SnoozeConfigStore;
use github_notifier::snooze_notifications::SnoozeNotifications;
use github_notifier::tray::{
    all_reasons, apply_command, parse_menu_id, render_snapshot, repo_action_id, CommandOutcome,
    snooze_end, MenuCommand, TrayState, DAY_SECONDS,
};
use github_notifier::last_check::{last_check_from_text, last_check_text, since_query_value};
use github_notifier::AppConfig;

const NOW: i64 = 1_700_000_000;

#[test]
fn action_id_format() {
    assert_eq!(repo_action_id("acme", "widgets", "snooze:day"), "repo:acme:widgets:snooze:day");
}

#[test]
fn menu_ids_decode() {
    assert!(matches!(parse_menu_id("quit"), Some(MenuCommand::Quit)));
    match parse_menu_id(&repo_action_id("acme", "widgets", "snooze:week")) {
        Some(MenuCommand::SnoozeRepository { owner, repo, duration }) => {
            assert_eq!(owner, "acme");
            assert_eq!(repo, "widgets");
            assert_eq!(duration, 7 * DAY_SECONDS);
        }
        other => panic!("unexpected {:?}", other),
    }
    match parse_menu_id("repo:acme:widgets:reason:ci_activity") {
        Some(MenuCommand::ToggleReason { owner, repo, reason }) => {
            assert_eq!((owner.as_str(), repo.as_str(), reason.as_str()), ("acme", "widgets", "ci_activity"));
        }
        other => panic!("unexpected {:?}", other),
    }
    assert!(matches!(
        parse_menu_id("repo:acme:widgets:snooze:month"),
        Some(MenuCommand::SnoozeRepository { duration: 2592000, .. })
    ));
    assert!(matches!(parse_menu_id("repo:acme:widgets:unsnooze:now"), Some(MenuCommand::UnsnoozeRepository { .. })));
    assert!(parse_menu_id("repo:acme:widgets:snooze:year").is_none());
    assert!(parse_menu_id("repo:acme:widgets").is_none());
    assert!(parse_menu_id("about").is_none());
    assert!(parse_menu_id("").is_none());
}

#[test]
fn commands_apply_to_store() {
    let mut s = SnoozeConfigStore::new();
    let snooze = parse_menu_id("repo:acme:widgets:snooze:day").unwrap();
    assert_eq!(apply_command(&mut s, &snooze, NOW), CommandOutcome::Snoozed);
    assert!(s.is_repo_snoozed("acme", "widgets", NOW + DAY_SECONDS - 1));
    assert!(!s.is_repo_snoozed("acme", "widgets", NOW + DAY_SECONDS));
    let toggle = parse_menu_id("repo:acme:widgets:reason:push").unwrap();
    assert_eq!(apply_command(&mut s, &toggle, NOW), CommandOutcome::Toggled(true));
    assert_eq!(apply_command(&mut s, &toggle, NOW), CommandOutcome::Toggled(false));
    let un = MenuCommand::UnsnoozeRepository { owner: "acme".to_string(), repo: "widgets".to_string() };
    assert_eq!(apply_command(&mut s, &un, NOW), CommandOutcome::Unsnoozed(true));
    assert_eq!(apply_command(&mut s, &un, NOW), CommandOutcome::Unsnoozed(false));
    assert_eq!(apply_command(&mut s, &MenuCommand::Quit, NOW), CommandOutcome::Quit);
    assert_eq!(apply_command(&mut s, &snooze, i64::MAX), CommandOutcome::OutOfRange);
}

#[test]
fn snapshot_reflects_store() {
    let mut s = SnoozeConfigStore::new();
    s.add_repo("o", "b");
    s.snooze_repo("o", "a", NOW + 5);
    s.toggle_reason("o", "b", "mention");
    let snap = render_snapshot(&s, NOW);
    assert_eq!(snap.inventory, vec![("o".to_string(), "a".to_string()), ("o".to_string(), "b".to_string())]);
    assert_eq!(snap.active, vec![("o".to_string(), "a".to_string(), NOW + 5)]);
    let names = all_reasons();
    assert_eq!(names.len(), 13);
    let mention = names.iter().position(|n| n == "mention").unwrap();
    assert!(snap.reasons[1][mention]);
    assert!(!snap.reasons[0][mention]);
    assert_eq!(snap.reasons[1].iter().filter(|b| **b).count(), 1);
}

#[test]
fn snooze_notifications_expire() {
    let mut sn = SnoozeNotifications::new();
    sn.snooze("acme/widgets".to_string(), 60, 1000);
    sn.snooze("acme/gadgets".to_string(), 10, 1000);
    assert!(sn.is_snoozed("acme/widgets"));
    assert!(sn.is_snoozed("acme/gadgets"));
    sn.unsnooze_expires(1010);
    assert!(!sn.is_snoozed("acme/gadgets"));
    assert!(sn.is_snoozed("acme/widgets"));
    assert_eq!(sn.queue.len(), 1);
    sn.handle_snooze_message();
    sn.unsnooze_expires(1060);
    assert!(!sn.is_snoozed("acme/widgets"));
    assert!(sn.queue.is_empty());
}

#[test]
fn tray_state_clears() {
    let mut t = TrayState::new();
    assert!(t.repository_items.is_empty());
    t.clear();
    assert!(t.author_items.is_empty());
}

#[test]
fn config_token() {
    assert_eq!(AppConfig::load(Some("abc".to_string())).github_token, "abc");
    assert_eq!(AppConfig::load(None).github_token, "");
}

#[test]
fn snooze_end_range() {
    assert_eq!(snooze_end(NOW, DAY_SECONDS), Some(NOW + 86400));
    assert_eq!(snooze_end(i64::MAX, 1), None);
    assert_eq!(snooze_end(i64::MIN, -1), None);
    assert_eq!(snooze_end(-5, -5), Some(-10));
}

#[test]
fn since_parameter_text() {
    assert_eq!(since_query_value(None), None);
    assert_eq!(since_query_value(Some(0)), Some("1970-01-01T00:00:00Z".to_string()));
    assert_eq!(since_query_value(Some(1704067200)), Some("2024-01-01T00:00:00Z".to_string()));
    assert_eq!(since_query_value(Some(253402300800)), Some(String::new()));
}

#[test]
fn last_check_text_round_trip() {
    let text = last_check_text(1704067200).unwrap();
    assert_eq!(text, "2024-01-01T00:00:00+00:00");
    assert_eq!(last_check_from_text(&text), 1704067200);
    assert_eq!(last_check_from_text("2024-01-01T01:00:00+01:00"), 1704067200);
    assert_eq!(last_check_from_text("yesterday"), 0);
}

#[test]
fn later_snooze_outlives_earlier_end() {
    let mut sn = SnoozeNotifications::new();
    sn.snooze("acme/widgets".to_string(), 10, 1000);
    sn.snooze("acme/widgets".to_string(), 100, 1005);
    assert_eq!(sn.map, vec![("acme/widgets".to_string(), 100)]);
    assert_eq!(
        sn.queue,
        vec![(1010, "acme/widgets".to_string()), (1105, "acme/widgets".to_string())]
    );
    sn.unsnooze_expires(1050);
    assert!(sn.is_snoozed("acme/widgets"));
    assert_eq!(sn.map, vec![("acme/widgets".to_string(), 100)]);
    assert_eq!(sn.queue, vec![(1105, "acme/widgets".to_string())]);
    sn.unsnooze_expires(1105);
    assert!(!sn.is_snoozed("acme/widgets"));
    assert!(sn.map.is_empty());
}

#[test]
fn unsnooze_keeps_other_durations() {
    let mut sn = SnoozeNotifications::new();
    sn.snooze("a".to_string(), 5, 0);
    sn.snooze("b".to_string(), 50, 0);
    sn.unsnooze_expires(10);
    assert_eq!(sn.map, vec![("b".to_string(), 50)]);
    assert_eq!(sn.queue, vec![(50, "b".to_string())]);
}
