use vstd::prelude::*;
use crate::decision::Verdict;
use crate::github::{CommentDto, NotificationDetailDto, NotificationDto};

verus! {

/// Kinds of event that a user can silence from the menu.
#[derive(PartialEq, Eq, Structural, Clone, Copy, Debug)]
pub enum NotificationType {
    Mentions,
    PullRequestOpened,
    PullRequestClosed,
    PullRequestMerged,
    IssueOpened,
    IssueClosed,
    IssueAssigned,
    IssueUnassigned,
    IssueLabeled,
    IssueUnlabeled,
    IssueCommented,
    PullRequestReviewRequested,
    PullRequestReviewRequestRemoved,
}

/// The look of a presented event.
#[derive(PartialEq, Eq, Structural, Clone, Copy, Debug)]
pub enum NotificationCategory {
    PullRequestOpen,
    PullRequestMerged,
    PullRequestClosed,
    PullRequest,
    Generic,
}

/// What the user did with a presented event.
#[derive(PartialEq, Eq, Structural, Clone, Copy, Debug)]
pub enum NotificationAction {
    Default,
    MarkAsRead,
    OpenInBrowser,
    Closed,
    Unknown,
}

/// How the wait on a presented event ended.
#[derive(PartialEq, Eq, Structural, Clone, Copy, Debug)]
pub enum Response {
    Action(NotificationAction),
    TimedOut,
    PresentationFailed,
}

#[derive(PartialEq, Eq, Structural, Clone, Copy, Debug)]
pub enum LifecycleState {
    Fetching,
    Presenting,
    Resolved,
}

/// The side effects that one step of a lifecycle asks for.
pub struct Step {
    pub present: Option<NotificationCategory>,
    pub acknowledge: bool,
    pub open_url: Option<String>,
}

pub open spec fn opt_view(o: Option<String>) -> Option<Seq<char>> {
    match o {
        Some(s) => Some(s@),
        None => None,
    }
}

/// Whether `s` holds the same text as `lit`.
pub fn text_is(s: &String, lit: &str) -> (r: bool)
    ensures
        r == (s@ == lit@),
{
    *s == lit.to_owned()
}

/// The category of an event with the subject kind `kind`, given its detail.
pub open spec fn category_for(kind: Seq<char>, details: Option<NotificationDetailDto>) -> NotificationCategory {
    if kind == "PullRequest"@ {
        match details {
            Some(d) => if d.state@ == "open"@ {
                NotificationCategory::PullRequestOpen
            } else if d.state@ == "closed"@ && d.merged {
                NotificationCategory::PullRequestMerged
            } else if d.state@ == "closed"@ {
                NotificationCategory::PullRequestClosed
            } else {
                NotificationCategory::Generic
            },
            None => NotificationCategory::PullRequest,
        }
    } else {
        NotificationCategory::Generic
    }
}

pub fn select_category(kind: &String, details: &Option<NotificationDetailDto>) -> (r: NotificationCategory)
    ensures
        r == category_for(kind@, *details),
{
    if !text_is(kind, "PullRequest") {
        return NotificationCategory::Generic;
    }
    match details {
        Some(d) => {
            if text_is(&d.state, "open") {
                NotificationCategory::PullRequestOpen
            } else if text_is(&d.state, "closed") {
                if d.merged {
                    NotificationCategory::PullRequestMerged
                } else {
                    NotificationCategory::PullRequestClosed
                }
            } else {
                NotificationCategory::Generic
            }
        },
        None => NotificationCategory::PullRequest,
    }
}

/// The page to open for an event: its latest comment, else its subject.
pub open spec fn open_target_for(
    details: Option<NotificationDetailDto>,
    comment: Option<CommentDto>,
) -> Option<Seq<char>> {
    match comment {
        Some(c) => Some(c.url@),
        None => match details {
            Some(d) => Some(d.links.html.href@),
            None => None,
        },
    }
}

pub fn open_target(details: &Option<NotificationDetailDto>, comment: &Option<CommentDto>) -> (r:
    Option<String>)
    ensures
        opt_view(r) == open_target_for(*details, *comment),
{
    match comment {
        Some(c) => Some(c.url.clone()),
        None => match details {
            Some(d) => Some(d.links.html.href.clone()),
            None => None,
        },
    }
}

/// Reads an action identifier of the notification widget.
pub fn parse_action(id: &str) -> (r: NotificationAction)
    ensures
        r == (if id@ == "default"@ {
            NotificationAction::Default
        } else if id@ == "clicked_a"@ {
            NotificationAction::MarkAsRead
        } else if id@ == "clicked_b"@ {
            NotificationAction::OpenInBrowser
        } else if id@ == "__closed"@ {
            NotificationAction::Closed
        } else {
            NotificationAction::Unknown
        }),
{
    let s = id.to_owned();
    if text_is(&s, "default") {
        NotificationAction::Default
    } else if text_is(&s, "clicked_a") {
        NotificationAction::MarkAsRead
    } else if text_is(&s, "clicked_b") {
        NotificationAction::OpenInBrowser
    } else if text_is(&s, "__closed") {
        NotificationAction::Closed
    } else {
        NotificationAction::Unknown
    }
}

pub open spec fn is_digit(c: char) -> bool {
    '0' <= c && c <= '9'
}

/// The number written by the decimal digits `s`.
pub open spec fn decimal_value(s: Seq<char>) -> nat
    decreases s.len(),
{
    if s.len() == 0 {
        0
    } else {
        decimal_value(s.drop_last()) * 10 + ((s.last() as u32) - 48) as nat
    }
}

proof fn lemma_decimal_monotone(s: Seq<char>, i: int, j: int)
    requires
        0 <= i <= j <= s.len(),
    ensures
        decimal_value(s.take(i)) <= decimal_value(s.take(j)),
    decreases j - i,
{
    if i < j {
        lemma_decimal_monotone(s, i, j - 1);
        assert(s.take(j).drop_last() =~= s.take(j - 1));
    }
}

/// The identifier under which the widget shows an event: the event's
/// numeric identifier modulo `u32::MAX`; `None` unless the identifier is a
/// non-empty run of decimal digits whose value fits in a `u64`.
pub fn notification_widget_id(id: &str) -> (r: Option<u32>)
    ensures
        r is Some <==> (id@.len() > 0 && (forall|i: int| 0 <= i < id@.len() ==> is_digit(#[trigger] id@[i]))
            && decimal_value(id@) <= u64::MAX),
        r is Some ==> r->0 == decimal_value(id@) % 4294967295,
{
    let n = id.unicode_len();
    if n == 0 {
        return None;
    }
    let mut v: u64 = 0;
    let mut i: usize = 0;
    while i < n
        invariant
            n == id@.len(),
            i <= n,
            v as nat == decimal_value(id@.take(i as int)),
            forall|j: int| 0 <= j < i ==> is_digit(#[trigger] id@[j]),
        decreases n - i,
    {
        let c = id.get_char(i);
        if c < '0' || c > '9' {
            return None;
        }
        let d = (c as u32 - 48) as u64;
        proof {
            assert(id@.take(i as int + 1).drop_last() =~= id@.take(i as int));
        }
        if v > (u64::MAX - d) / 10 {
            proof {
                lemma_decimal_monotone(id@, i as int + 1, n as int);
                assert(id@.take(n as int) =~= id@);
                assert(v * 10 + d > u64::MAX) by (nonlinear_arith)
                    requires
                        v > (u64::MAX - d) / 10,
                        d <= 9,
                ;
            }
            return None;
        }
        v = v * 10 + d;
        i += 1;
    }
    assert(id@.take(n as int) =~= id@);
    Some((v % 4294967295) as u32)
}

/// Where a lifecycle goes on a response, and whether it acknowledges the
/// event and opens it: (next state, acknowledge, open). Only a presented
/// event reacts; the first response resolves it and later ones do nothing.
pub open spec fn response_outcome(state: LifecycleState, r: Response) -> (LifecycleState, bool, bool) {
    match state {
        LifecycleState::Presenting => match r {
            Response::Action(a) => match a {
                NotificationAction::Default => (LifecycleState::Resolved, true, true),
                NotificationAction::OpenInBrowser => (LifecycleState::Resolved, true, true),
                NotificationAction::MarkAsRead => (LifecycleState::Resolved, true, false),
                NotificationAction::Closed => (LifecycleState::Resolved, true, false),
                NotificationAction::Unknown => (LifecycleState::Resolved, false, false),
            },
            Response::TimedOut => (LifecycleState::Resolved, false, false),
            Response::PresentationFailed => (LifecycleState::Resolved, true, false),
        },
        _ => (state, false, false),
    }
}

/// One event from the fetch of its detail to its resolution.
pub struct EventLifecycle {
    pub state: LifecycleState,
    pub verdict: Verdict,
    pub kind: String,
    pub category: NotificationCategory,
    pub open_url: Option<String>,
}

impl EventLifecycle {
    pub fn new(n: &NotificationDto, verdict: Verdict) -> (r: EventLifecycle)
        ensures
            r.state == LifecycleState::Fetching,
            r.verdict == verdict,
            r.kind@ == n.subject.type_field@,
            r.open_url is None,
    {
        EventLifecycle {
            state: LifecycleState::Fetching,
            verdict,
            kind: n.subject.type_field.clone(),
            category: NotificationCategory::Generic,
            open_url: None,
        }
    }

    /// The detail and the comment have been fetched (either may be missing).
    /// A shown event is presented; an auto-acknowledged one is acknowledged
    /// and resolved; a silently suppressed one is resolved.
    pub fn on_fetched(
        &mut self,
        details: Option<NotificationDetailDto>,
        comment: Option<CommentDto>,
    ) -> (r: Step)
        ensures
            old(self).state != LifecycleState::Fetching ==> final(self).state == old(self).state
                && final(self).category == old(self).category && final(self).open_url == old(
                self,
            ).open_url && r.present is None && !r.acknowledge && r.open_url is None,
            old(self).state == LifecycleState::Fetching ==> {
                &&& final(self).category == category_for(old(self).kind@, details)
                &&& opt_view(final(self).open_url) == open_target_for(details, comment)
                &&& r.open_url is None
                &&& (old(self).verdict == Verdict::Show ==> final(self).state == LifecycleState::Presenting
                    && r.present == Some(final(self).category) && !r.acknowledge)
                &&& (old(self).verdict == Verdict::AutoAcknowledge ==> final(self).state
                    == LifecycleState::Resolved && r.present is None && r.acknowledge)
                &&& (old(self).verdict == Verdict::SuppressSilently ==> final(self).state
                    == LifecycleState::Resolved && r.present is None && !r.acknowledge)
            },
            final(self).verdict == old(self).verdict,
            final(self).kind == old(self).kind,
    {
        if self.state != LifecycleState::Fetching {
            return Step { present: None, acknowledge: false, open_url: None };
        }
        self.category = select_category(&self.kind, &details);
        self.open_url = open_target(&details, &comment);
        match self.verdict {
            Verdict::Show => {
                self.state = LifecycleState::Presenting;
                Step { present: Some(self.category), acknowledge: false, open_url: None }
            },
            Verdict::AutoAcknowledge => {
                self.state = LifecycleState::Resolved;
                Step { present: None, acknowledge: true, open_url: None }
            },
            Verdict::SuppressSilently => {
                self.state = LifecycleState::Resolved;
                Step { present: None, acknowledge: false, open_url: None }
            },
        }
    }

    /// The first of the user's response and the timeout has come.
    pub fn on_response(&mut self, resp: Response) -> (r: Step)
        ensures
            final(self).state == response_outcome(old(self).state, resp).0,
            r.acknowledge == response_outcome(old(self).state, resp).1,
            opt_view(r.open_url) == (if response_outcome(old(self).state, resp).2 {
                opt_view(old(self).open_url)
            } else {
                None
            }),
            r.present is None,
            final(self).open_url == old(self).open_url,
            final(self).verdict == old(self).verdict,
            final(self).category == old(self).category,
            final(self).kind == old(self).kind,
    {
        if self.state != LifecycleState::Presenting {
            return Step { present: None, acknowledge: false, open_url: None };
        }
        self.state = LifecycleState::Resolved;
        match resp {
            Response::Action(a) => match a {
                NotificationAction::Default | NotificationAction::OpenInBrowser => {
                    let url = match &self.open_url {
                        Some(u) => Some(u.clone()),
                        None => None,
                    };
                    Step { present: None, acknowledge: true, open_url: url }
                },
                NotificationAction::MarkAsRead | NotificationAction::Closed => Step {
                    present: None,
                    acknowledge: true,
                    open_url: None,
                },
                NotificationAction::Unknown => Step { present: None, acknowledge: false, open_url: None },
            },
            Response::TimedOut => Step { present: None, acknowledge: false, open_url: None },
            Response::PresentationFailed => Step { present: None, acknowledge: true, open_url: None },
        }
    }
}

/// The thread that acknowledging `notification` marks as read: the event's
/// own identifier.
pub fn only_mark_as_read(notification: &NotificationDto) -> (r: String)
    ensures
        r@ == notification.id@,
{
    notification.id.clone()
}

/// After a response, later ones have no effect: whichever of the user's
/// action and the timeout comes first decides, and the other does nothing.
/// An action first gives its own effects (acknowledge, and open for the
/// default and open actions); a timeout first gives none.
pub proof fn lemma_response_race(first: Response, second: Response)
    ensures
        response_outcome(LifecycleState::Presenting, first).0 == LifecycleState::Resolved,
        response_outcome(response_outcome(LifecycleState::Presenting, first).0, second) == (
            LifecycleState::Resolved,
            false,
            false,
        ),
        first == Response::TimedOut ==> response_outcome(LifecycleState::Presenting, first) == (
            LifecycleState::Resolved,
            false,
            false,
        ),
        first is Action ==> response_outcome(LifecycleState::Presenting, first).1 == (first
            != Response::Action(NotificationAction::Unknown)),
        first is Action ==> response_outcome(LifecycleState::Presenting, first).2 == (first
            == Response::Action(NotificationAction::Default) || first == Response::Action(
            NotificationAction::OpenInBrowser,
        )),
{
}

} // verus!
