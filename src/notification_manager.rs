use vstd::prelude::*;
use crate::decision::{decide, observed, verdict_for, Verdict};
use crate::github::NotificationDto;
use crate::snooze_config_store::{RepoKey, SnoozeConfigStore};

verus! {

#[derive(Debug)]
pub struct RepositoryMenuItemData {
    pub id: String,
    pub name: String,
    pub count: String,
}

#[derive(Debug)]
pub struct AuthorMenuItemData {
    pub id: String,
    pub name: String,
    pub count: String,
}

#[derive(Debug)]
pub enum NotificationManagerMessage {
    UpdateRepositories(RepositoryMenuItemData),
    UpdateAuthors(RepositoryMenuItemData),
    Quit,
}

/// What the dispatch loop does at the top of a cycle.
#[derive(PartialEq, Eq, Structural, Clone, Copy, Debug)]
pub enum CycleCommand {
    /// Pull the events since the given unix second (all of them if none).
    Poll(Option<i64>),
    Stop,
}

/// The repository rows after all the repositories of `events` have been
/// seen.
pub open spec fn observed_all(m: Map<RepoKey, Option<i64>>, events: Seq<NotificationDto>) -> Map<
    RepoKey,
    Option<i64>,
>
    decreases events.len(),
{
    if events.len() == 0 {
        m
    } else {
        observed(observed_all(m, events.drop_last()), events.last().repo_key())
    }
}

/// A task that is not among the finished ones.
pub open spec fn is_unfinished(finished: Seq<u64>, t: u64) -> bool {
    !finished.contains(t)
}

/// The state of the dispatch loop: where the next pull starts, and the
/// lifecycle tasks still running.
pub struct NotificationManager {
    pub seen_repositories: Vec<String>,
    pub seen_authors: Vec<String>,
    pub since: Option<i64>,
    pub tasks: Vec<u64>,
}

impl NotificationManager {
    /// A loop that starts pulling at `since`, with no task running.
    pub fn new(since: Option<i64>) -> (r: NotificationManager)
        ensures
            r.since == since,
            r.tasks@.len() == 0,
            r.seen_repositories@.len() == 0,
            r.seen_authors@.len() == 0,
    {
        NotificationManager {
            seen_repositories: Vec::new(),
            seen_authors: Vec::new(),
            since,
            tasks: Vec::new(),
        }
    }

    /// Cancellation is looked at first; otherwise the loop pulls from where
    /// the last successful cycle started.
    pub fn begin_cycle(&self, cancelled: bool) -> (r: CycleCommand)
        ensures
            r == (if cancelled {
                CycleCommand::Stop
            } else {
                CycleCommand::Poll(self.since)
            }),
    {
        if cancelled {
            CycleCommand::Stop
        } else {
            CycleCommand::Poll(self.since)
        }
    }

    /// A cycle that started at `started` went through: the next pull starts
    /// there.
    pub fn end_cycle(&mut self, started: i64)
        ensures
            final(self).since == Some(started),
            final(self).tasks == old(self).tasks,
    {
        self.since = Some(started);
    }

    /// The verdicts on the events of one pull, in order, against the rules as
    /// they stand; every repository seen joins the inventory.
    pub fn decide_cycle(store: &mut SnoozeConfigStore, events: &Vec<NotificationDto>, now: i64) -> (r:
        Vec<Verdict>)
        requires
            old(store).wf(),
        ensures
            final(store).wf(),
            r@.len() == events@.len(),
            forall|i: int|
                0 <= i < events@.len() ==> #[trigger] r@[i] == verdict_for(
                    old(store).snoozes(),
                    old(store).reasons(),
                    events@[i],
                    now,
                ),
            final(store).snoozes() == observed_all(old(store).snoozes(), events@),
            final(store).reasons() == old(store).reasons(),
    {
        let ghost orig = *store;
        let mut out: Vec<Verdict> = Vec::new();
        let mut i: usize = 0;
        while i < events.len()
            invariant
                store.wf(),
                i <= events@.len(),
                out@.len() == i,
                store.reasons() == orig.reasons(),
                store.snoozes() == observed_all(orig.snoozes(), events@.subrange(0, i as int)),
                forall|k: RepoKey|
                    #[trigger] store.snoozes().contains_key(k) && !orig.snoozes().contains_key(k)
                        ==> store.snoozes()[k] is None,
                forall|k: RepoKey|
                    #[trigger] orig.snoozes().contains_key(k) ==> store.snoozes().contains_key(k)
                        && store.snoozes()[k] == orig.snoozes()[k],
                forall|j: int|
                    0 <= j < i ==> #[trigger] out@[j] == verdict_for(
                        orig.snoozes(),
                        orig.reasons(),
                        events@[j],
                        now,
                    ),
            decreases events@.len() - i,
        {
            let ghost before = store.snoozes();
            let v = decide(store, &events[i], now);
            proof {
                let k = events@[i as int].repo_key();
                assert(orig.snoozes().contains_key(k) ==> before.contains_key(k));
                assert(verdict_for(before, orig.reasons(), events@[i as int], now) == verdict_for(
                    orig.snoozes(),
                    orig.reasons(),
                    events@[i as int],
                    now,
                ));
                let pre = events@.subrange(0, i as int + 1);
                assert(pre.drop_last() =~= events@.subrange(0, i as int));
                assert(pre.last() == events@[i as int]);
            }
            out.push(v);
            i += 1;
        }
        assert(events@.subrange(0, events@.len() as int) =~= events@);
        out
    }

    /// A lifecycle task has been launched.
    pub fn track_task(&mut self, task: u64)
        ensures
            final(self).tasks@ == old(self).tasks@.push(task),
            final(self).since == old(self).since,
    {
        self.tasks.push(task);
    }

    /// Drops the tasks that have finished; the others stay, in order.
    pub fn retain_unfinished(&mut self, finished: &Vec<u64>)
        ensures
            final(self).tasks@ == old(self).tasks@.filter(|t: u64| is_unfinished(finished@, t)),
            final(self).since == old(self).since,
    {
        let mut kept: Vec<u64> = Vec::new();
        let mut i: usize = 0;
        while i < self.tasks.len()
            invariant
                i <= self.tasks@.len(),
                kept@ == self.tasks@.subrange(0, i as int).filter(|t: u64| is_unfinished(finished@, t)),
            decreases self.tasks@.len() - i,
        {
            let t = self.tasks[i];
            let mut done = false;
            let mut j: usize = 0;
            while j < finished.len()
                invariant
                    j <= finished@.len(),
                    done == finished@.subrange(0, j as int).contains(t),
                decreases finished@.len() - j,
            {
                proof {
                    let s0 = finished@.subrange(0, j as int);
                    let s1 = finished@.subrange(0, j as int + 1);
                    if s0.contains(t) {
                        let k = choose|k: int| 0 <= k < s0.len() && s0[k] == t;
                        assert(s1[k] == t);
                    }
                    if finished@[j as int] == t {
                        assert(s1[j as int] == t);
                    }
                    if s1.contains(t) {
                        let k = choose|k: int| 0 <= k < s1.len() && s1[k] == t;
                        if k < j {
                            assert(s0[k] == t);
                        }
                    }
                }
                if finished[j] == t {
                    done = true;
                }
                j += 1;
            }
            assert(finished@.subrange(0, finished@.len() as int) =~= finished@);
            proof {
                let s = self.tasks@.subrange(0, i as int + 1);
                assert(s.drop_last() =~= self.tasks@.subrange(0, i as int));
                assert(s.last() == t);
                reveal(Seq::filter);
            }
            if !done {
                kept.push(t);
            }
            i += 1;
        }
        assert(self.tasks@.subrange(0, self.tasks@.len() as int) =~= self.tasks@);
        self.tasks = kept;
    }

    /// How many lifecycle tasks are outstanding.
    pub fn outstanding(&self) -> (r: usize)
        ensures
            r == self.tasks@.len(),
    {
        self.tasks.len()
    }
}

} // verus!
