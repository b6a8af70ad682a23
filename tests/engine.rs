use github_notifier::decision::{decide, Verdict};
use github_notifier::github::{
    CommentDto, NotificationDetailDto, NotificationDetailLinkHref, NotificationDetailLinks,
    NotificationDto, Repository, RepositoryOwner, Subject,
};
use github_notifier::notification_manager::{CycleCommand, NotificationManager};
use github_notifier::notify::{
    notification_widget_id, only_mark_as_read, open_target, parse_action, select_category, EventLifecycle,
    LifecycleState, NotificationAction, NotificationCategory, Response,
};
use github_notifier::snooze_config_store::SnoozeConfigStore;

const NOW: i64 = 1_700_000_000;

fn event(id: &str, owner: &str, repo: &str, reason: &str, kind: &str) -> NotificationDto {
    NotificationDto {
        id: id.to_string(),
        reason: reason.to_string(),
        repository: Repository {
            full_name: format!("{}/{}", owner, repo),
            name: repo.to_string(),
            owner: RepositoryOwner { login: owner.to_string() },
        },
        subject: Subject {
            title: "Title".to_string(),
            type_field: kind.to_string(),
            url: "https://api.example/subject".to_string(),
            latest_comment_url: None,
        },
    }
}

fn detail(state: &str, merged: bool) -> NotificationDetailDto {
    NotificationDetailDto {
        links: NotificationDetailLinks {
            html: NotificationDetailLinkHref { href: "https://example/pr/1".to_string() },
        },
        state: state.to_string(),
        merged,
    }
}

#[test]
fn decision_snoozed_repository_is_auto_acknowledged() {
    let ev = event("1", "acme", "widgets", "ci_activity", "Issue");
    let mut s = SnoozeConfigStore::new();
    s.snooze_repo("acme", "widgets", NOW + 3600);
    assert_eq!(decide(&mut s, &ev, NOW), Verdict::AutoAcknowledge);
    let mut empty = SnoozeConfigStore::new();
    assert_eq!(decide(&mut empty, &ev, NOW), Verdict::Show);
    // the repository joined the inventory
    assert_eq!(empty.list_all_repos(), vec![("acme".to_string(), "widgets".to_string())]);
}

#[test]
fn end_to_end_three_events() {
    let mut s = SnoozeConfigStore::new();
    s.snooze_repo("o", "r1", NOW + 3600);
    assert!(s.toggle_reason("o", "r2", "mention"));
    let events = vec![
        event("11", "o", "r1", "comment", "Issue"),
        event("12", "o", "r2", "mention", "Issue"),
        event("13", "o", "r3", "mention", "Issue"),
    ];
    let mut mgr = NotificationManager::new(None);
    assert_eq!(mgr.begin_cycle(false), CycleCommand::Poll(None));
    let verdicts = NotificationManager::decide_cycle(&mut s, &events, NOW);
    assert_eq!(verdicts, vec![Verdict::AutoAcknowledge, Verdict::AutoAcknowledge, Verdict::Show]);
    let mut acknowledged = Vec::new();
    let mut presented = Vec::new();
    for (ev, v) in events.iter().zip(verdicts.iter()) {
        assert!(v.launches());
        let mut lc = EventLifecycle::new(ev, *v);
        let step = lc.on_fetched(None, None);
        if step.acknowledge {
            acknowledged.push(ev.id.clone());
        }
        if step.present.is_some() {
            presented.push(ev.id.clone());
        }
    }
    assert_eq!(acknowledged, vec!["11".to_string(), "12".to_string()]);
    assert_eq!(presented, vec!["13".to_string()]);
    assert_eq!(s.list_all_repos().len(), 3);
}

fn presented(kind: &str) -> EventLifecycle {
    let ev = event("7", "o", "r", "mention", kind);
    let mut lc = EventLifecycle::new(&ev, Verdict::Show);
    let comment = Some(CommentDto { url: "https://example/comment".to_string() });
    let step = lc.on_fetched(Some(detail("open", false)), comment);
    assert_eq!(step.present, Some(NotificationCategory::PullRequestOpen));
    assert_eq!(lc.state, LifecycleState::Presenting);
    lc
}

#[test]
fn response_before_timeout_fires_once() {
    let mut lc = presented("PullRequest");
    let first = lc.on_response(Response::Action(NotificationAction::OpenInBrowser));
    assert!(first.acknowledge);
    assert_eq!(first.open_url, Some("https://example/comment".to_string()));
    assert_eq!(lc.state, LifecycleState::Resolved);
    let late = lc.on_response(Response::TimedOut);
    assert!(!late.acknowledge);
    assert_eq!(late.open_url, None);
}

#[test]
fn mark_as_read_action_only_acknowledges() {
    let mut lc = presented("PullRequest");
    let first = lc.on_response(Response::Action(NotificationAction::MarkAsRead));
    assert!(first.acknowledge);
    assert_eq!(first.open_url, None);
}

#[test]
fn timeout_first_fires_nothing() {
    let mut lc = presented("PullRequest");
    let first = lc.on_response(Response::TimedOut);
    assert!(!first.acknowledge);
    assert_eq!(first.open_url, None);
    let late = lc.on_response(Response::Action(NotificationAction::Default));
    assert!(!late.acknowledge);
    assert_eq!(late.open_url, None);
}

#[test]
fn dismissal_and_failure_acknowledge() {
    let mut lc = presented("PullRequest");
    let s = lc.on_response(Response::Action(NotificationAction::Closed));
    assert!(s.acknowledge && s.open_url.is_none());
    let mut lc2 = presented("PullRequest");
    let s2 = lc2.on_response(Response::PresentationFailed);
    assert!(s2.acknowledge && s2.open_url.is_none());
}

#[test]
fn category_selection() {
    let pr = "PullRequest".to_string();
    assert_eq!(select_category(&pr, &Some(detail("open", false))), NotificationCategory::PullRequestOpen);
    assert_eq!(select_category(&pr, &Some(detail("closed", true))), NotificationCategory::PullRequestMerged);
    assert_eq!(select_category(&pr, &Some(detail("closed", false))), NotificationCategory::PullRequestClosed);
    assert_eq!(select_category(&pr, &None), NotificationCategory::PullRequest);
    assert_eq!(select_category(&"Issue".to_string(), &Some(detail("open", false))), NotificationCategory::Generic);
}

#[test]
fn open_target_priority() {
    let c = Some(CommentDto { url: "c".to_string() });
    assert_eq!(open_target(&Some(detail("open", false)), &c), Some("c".to_string()));
    assert_eq!(open_target(&Some(detail("open", false)), &None), Some("https://example/pr/1".to_string()));
    assert_eq!(open_target(&None, &None), None);
}

#[test]
fn default_action_without_url_only_acknowledges() {
    let ev = event("8", "o", "r", "mention", "Issue");
    let mut lc = EventLifecycle::new(&ev, Verdict::Show);
    let step = lc.on_fetched(None, None);
    assert_eq!(step.present, Some(NotificationCategory::Generic));
    let r = lc.on_response(Response::Action(NotificationAction::Default));
    assert!(r.acknowledge);
    assert_eq!(r.open_url, None);
}

#[test]
fn action_identifiers() {
    assert_eq!(parse_action("default"), NotificationAction::Default);
    assert_eq!(parse_action("clicked_a"), NotificationAction::MarkAsRead);
    assert_eq!(parse_action("clicked_b"), NotificationAction::OpenInBrowser);
    assert_eq!(parse_action("__closed"), NotificationAction::Closed);
    assert_eq!(parse_action("other"), NotificationAction::Unknown);
}

#[test]
fn mark_as_read_step() {
    let ev = event("9", "o", "r", "mention", "Issue");
    assert_eq!(only_mark_as_read(&ev), "9");
}

#[test]
fn suppress_silently_resolves_without_effect() {
    let ev = event("10", "o", "r", "mention", "Issue");
    assert!(!Verdict::SuppressSilently.launches());
    let mut lc = EventLifecycle::new(&ev, Verdict::SuppressSilently);
    let s = lc.on_fetched(None, None);
    assert!(!s.acknowledge && s.present.is_none());
    assert_eq!(lc.state, LifecycleState::Resolved);
}

#[test]
fn dispatch_tracks_and_prunes_tasks() {
    let mut mgr = NotificationManager::new(Some(5));
    mgr.track_task(1);
    mgr.track_task(2);
    mgr.track_task(3);
    assert_eq!(mgr.outstanding(), 3);
    mgr.retain_unfinished(&vec![2, 9]);
    assert_eq!(mgr.tasks, vec![1, 3]);
    assert_eq!(mgr.begin_cycle(false), CycleCommand::Poll(Some(5)));
    mgr.end_cycle(42);
    assert_eq!(mgr.begin_cycle(false), CycleCommand::Poll(Some(42)));
    assert_eq!(mgr.begin_cycle(true), CycleCommand::Stop);
}

#[test]
fn widget_id_from_numeric_identifier() {
    assert_eq!(notification_widget_id("12345"), Some(12345));
    assert_eq!(notification_widget_id("4294967295"), Some(0));
    assert_eq!(notification_widget_id("4294967296"), Some(1));
    assert_eq!(notification_widget_id("18446744073709551615"), Some((u64::MAX % 4294967295) as u32));
    assert_eq!(notification_widget_id("18446744073709551616"), None);
    assert_eq!(notification_widget_id(""), None);
    assert_eq!(notification_widget_id("12a"), None);
}
