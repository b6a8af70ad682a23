use vstd::prelude::*;
use crate::github::NotificationDto;
use crate::snooze_config_store::{suppressed_in, ReasonKey, RepoKey, SnoozeConfigStore};

verus! {

/// What to do with one event.
#[derive(PartialEq, Eq, Structural, Clone, Copy, Debug)]
pub enum Verdict {
    Show,
    SuppressSilently,
    AutoAcknowledge,
}

impl Verdict {
    /// Whether the event gets a lifecycle of its own.
    pub fn launches(&self) -> (r: bool)
        ensures
            r == (*self != Verdict::SuppressSilently),
    {
        !matches!(self, Verdict::SuppressSilently)
    }
}

/// The verdict on `n` under the rules `m` and `s` at `now`: a suppressed
/// event is acknowledged without being shown.
pub open spec fn verdict_for(
    m: Map<RepoKey, Option<i64>>,
    s: Set<ReasonKey>,
    n: NotificationDto,
    now: i64,
) -> Verdict {
    if suppressed_in(m, s, n.repository.owner.login@, n.repository.name@, n.reason@, now) {
        Verdict::AutoAcknowledge
    } else {
        Verdict::Show
    }
}

/// The repository rows after the repository `k` has been seen.
pub open spec fn observed(m: Map<RepoKey, Option<i64>>, k: RepoKey) -> Map<RepoKey, Option<i64>> {
    if m.contains_key(k) {
        m
    } else {
        m.insert(k, None)
    }
}

/// Decides on one event and records its repository in the inventory.
pub fn decide(store: &mut SnoozeConfigStore, n: &NotificationDto, now: i64) -> (v: Verdict)
    requires
        old(store).wf(),
    ensures
        final(store).wf(),
        v == verdict_for(old(store).snoozes(), old(store).reasons(), *n, now),
        final(store).snoozes() == observed(old(store).snoozes(), n.repo_key()),
        final(store).reasons() == old(store).reasons(),
{
    let owner = n.repository.owner.login.as_str();
    let repo = n.repository.name.as_str();
    let suppressed = store.should_snooze_for_reason(owner, repo, n.reason.as_str(), now);
    store.add_repo(owner, repo);
    if suppressed {
        Verdict::AutoAcknowledge
    } else {
        Verdict::Show
    }
}

} // verus!
