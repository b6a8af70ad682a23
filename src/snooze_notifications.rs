use vstd::prelude::*;

verus! {

/// Repositories snoozed for a while in memory: each snooze is remembered with
/// its duration and queued with the second at which it ends.
#[derive(Debug)]
pub struct SnoozeNotifications {
    /// Snoozed repository and the duration (seconds) of its last snooze.
    pub map: Vec<(String, u64)>,
    /// Pending ends: (second at which the snooze ends, repository).
    pub queue: Vec<(u64, String)>,
}

pub open spec fn entry_key(e: (String, u64)) -> Seq<char> {
    e.0@
}

pub open spec fn pending_view(e: (u64, String)) -> (u64, Seq<char>) {
    (e.0, e.1@)
}

/// Whether one of the first `bound` entries of `s` is for `k`.
pub open spec fn key_in(s: Seq<(String, u64)>, k: Seq<char>, bound: int) -> bool {
    exists|j: int| 0 <= j < bound && #[trigger] entry_key(s[j]) == k
}

/// A map entry with its texts as sequences of characters.
pub open spec fn entry_view(e: (String, u64)) -> (Seq<char>, u64) {
    (e.0@, e.1)
}

/// Map entries of another repository than `k`.
pub open spec fn not_key(k: Seq<char>) -> spec_fn((Seq<char>, u64)) -> bool {
    |e: (Seq<char>, u64)| e.0 != k
}

/// Map entries of a repository outside `d`.
pub open spec fn outside(d: Set<Seq<char>>) -> spec_fn((Seq<char>, u64)) -> bool {
    |e: (Seq<char>, u64)| !d.contains(e.0)
}

/// The repositories of the first `n` ends of `p` that are due at `now`.
pub open spec fn due_among(p: Seq<(u64, Seq<char>)>, n: int, now: u64) -> Set<Seq<char>> {
    Set::new(
        |k: Seq<char>|
            exists|j: int| 0 <= j < n && #[trigger] p[j] == (p[j].0, k) && is_due(p[j], now),
    )
}

/// Filtering twice is filtering once by both conditions.
pub proof fn lemma_filter_compose<A>(
    s: Seq<A>,
    p: spec_fn(A) -> bool,
    q: spec_fn(A) -> bool,
    r: spec_fn(A) -> bool,
)
    requires
        forall|e: A| #[trigger] r(e) == (p(e) && q(e)),
    ensures
        s.filter(p).filter(q) == s.filter(r),
    decreases s.len(),
{
    reveal(Seq::filter);
    if s.len() > 0 {
        lemma_filter_compose(s.drop_last(), p, q, r);
        if p(s.last()) {
            let t = s.drop_last().filter(p).push(s.last());
            assert(t.drop_last() =~= s.drop_last().filter(p));
            assert(t.last() == s.last());
        }
    }
}

/// Filtering by a condition that every element meets changes nothing.
pub proof fn lemma_filter_all<A>(s: Seq<A>, p: spec_fn(A) -> bool)
    requires
        forall|e: A| #[trigger] p(e),
    ensures
        s.filter(p) == s,
    decreases s.len(),
{
    reveal(Seq::filter);
    if s.len() > 0 {
        lemma_filter_all(s.drop_last(), p);
        assert(s.drop_last().push(s.last()) =~= s);
    }
}

/// A pending end that has come at `now`.
pub open spec fn is_due(e: (u64, Seq<char>), now: u64) -> bool {
    e.0 <= now
}

impl SnoozeNotifications {
    /// The repositories that are snoozed.
    pub open spec fn snoozed(&self) -> Set<Seq<char>> {
        Set::new(|k: Seq<char>| key_in(self.map@, k, self.map@.len() as int))
    }

    /// The map entries, in order.
    pub open spec fn map_view(&self) -> Seq<(Seq<char>, u64)> {
        self.map@.map_values(|e: (String, u64)| entry_view(e))
    }

    /// The pending ends, in the order they were queued.
    pub open spec fn pending(&self) -> Seq<(u64, Seq<char>)> {
        self.queue@.map_values(|e: (u64, String)| pending_view(e))
    }

    /// The repositories whose snooze ends at or before `now`.
    pub open spec fn due(&self, now: u64) -> Set<Seq<char>> {
        due_among(self.pending(), self.pending().len() as int, now)
    }

    /// The repositories with a pending end after `now`.
    pub open spec fn later(&self, now: u64) -> Set<Seq<char>> {
        Set::new(
            |k: Seq<char>|
                exists|i: int|
                    0 <= i < self.pending().len() && #[trigger] self.pending()[i] == (
                        self.pending()[i].0,
                        k,
                    ) && !is_due(self.pending()[i], now),
        )
    }

    /// The repositories whose snoozes have all ended at `now`: one of their
    /// ends is due and none lies after `now`.
    pub open spec fn expired(&self, now: u64) -> Set<Seq<char>> {
        self.due(now).difference(self.later(now))
    }

    pub fn new() -> (r: SnoozeNotifications)
        ensures
            r.snoozed() == Set::<Seq<char>>::empty(),
            r.pending() == Seq::<(u64, Seq<char>)>::empty(),
            r.map_view() == Seq::<(Seq<char>, u64)>::empty(),
    {
        let r = SnoozeNotifications { map: Vec::new(), queue: Vec::new() };
        assert(r.map_view() =~= Seq::<(Seq<char>, u64)>::empty());
        assert(r.snoozed() =~= Set::<Seq<char>>::empty());
        assert(r.pending() =~= Seq::<(u64, Seq<char>)>::empty());
        r
    }

    /// Removes every entry of `repository` from the map.
    fn forget(&mut self, repository: &String)
        ensures
            final(self).snoozed() == old(self).snoozed().remove(repository@),
            final(self).map_view() == old(self).map_view().filter(not_key(repository@)),
            final(self).queue == old(self).queue,
    {
        let mut kept: Vec<(String, u64)> = Vec::new();
        let mut i: usize = 0;
        while i < self.map.len()
            invariant
                i <= self.map@.len(),
                kept@.map_values(|e: (String, u64)| entry_view(e)) == self.map_view().subrange(
                    0,
                    i as int,
                ).filter(not_key(repository@)),
                forall|m: int|
                    0 <= m < kept@.len() ==> #[trigger] entry_key(kept@[m]) != repository@ && key_in(
                        self.map@,
                        entry_key(kept@[m]),
                        i as int,
                    ),
                forall|j: int|
                    0 <= j < i && #[trigger] entry_key(self.map@[j]) != repository@ ==> key_in(
                        kept@,
                        entry_key(self.map@[j]),
                        kept@.len() as int,
                    ),
            decreases self.map@.len() - i,
        {
            let ghost k0 = kept@;
            proof {
                let sv = self.map_view().subrange(0, i as int + 1);
                assert(sv.drop_last() =~= self.map_view().subrange(0, i as int));
                assert(sv.last() == entry_view(self.map@[i as int]));
                reveal(Seq::filter);
            }
            if self.map[i].0 != *repository {
                let e = (self.map[i].0.clone(), self.map[i].1);
                kept.push(e);
                proof {
                    assert(kept@.map_values(|e: (String, u64)| entry_view(e)) =~= k0.map_values(
                        |e: (String, u64)| entry_view(e),
                    ).push(entry_view(self.map@[i as int])));
                    assert(entry_key(kept@[kept@.len() - 1]) == entry_key(self.map@[i as int]));
                    assert forall|m: int| 0 <= m < kept@.len() implies #[trigger] entry_key(kept@[m])
                        != repository@ && key_in(self.map@, entry_key(kept@[m]), i + 1) by {
                        if m < k0.len() {
                            assert(kept@[m] == k0[m]);
                            let j = choose|j: int| 0 <= j < i && entry_key(self.map@[j]) == entry_key(k0[m]);
                        } else {
                            assert(entry_key(self.map@[i as int]) == entry_key(kept@[m]));
                        }
                    }
                    assert forall|j: int|
                        0 <= j < i + 1 && #[trigger] entry_key(self.map@[j]) != repository@ implies key_in(
                            kept@,
                            entry_key(self.map@[j]),
                            kept@.len() as int,
                        ) by {
                        if j < i {
                            let m = choose|m: int| 0 <= m < k0.len() && entry_key(k0[m]) == entry_key(self.map@[j]);
                            assert(kept@[m] == k0[m]);
                        } else {
                            assert(entry_key(kept@[kept@.len() - 1]) == entry_key(self.map@[j]));
                        }
                    }
                }
            } else {
                proof {
                    assert forall|m: int| 0 <= m < kept@.len() implies #[trigger] entry_key(kept@[m])
                        != repository@ && key_in(self.map@, entry_key(kept@[m]), i + 1) by {
                        let j = choose|j: int| 0 <= j < i && entry_key(self.map@[j]) == entry_key(kept@[m]);
                    }
                }
            }
            i += 1;
        }
        let ghost prev = *self;
        assert(prev.map_view().subrange(0, prev.map@.len() as int) =~= prev.map_view());
        self.map = kept;
        assert(self.snoozed() =~= prev.snoozed().remove(repository@)) by {
            assert forall|k: Seq<char>| self.snoozed().contains(k) implies prev.snoozed().remove(
                repository@,
            ).contains(k) by {
                let m = choose|m: int| 0 <= m < self.map@.len() && entry_key(self.map@[m]) == k;
                assert(entry_key(self.map@[m]) != repository@);
            }
            assert forall|k: Seq<char>| prev.snoozed().remove(repository@).contains(k) implies self.snoozed().contains(
                k,
            ) by {
                let j = choose|j: int| 0 <= j < prev.map@.len() && entry_key(prev.map@[j]) == k;
                assert(entry_key(prev.map@[j]) != repository@);
            }
        }
    }

    /// Snoozes `repository` for `duration` seconds from the second `now`:
    /// the map holds the new duration for it, and its end joins the queue.
    pub fn snooze(&mut self, repository: String, duration: u64, now: u64)
        requires
            now + duration <= u64::MAX,
        ensures
            final(self).snoozed() == old(self).snoozed().insert(repository@),
            final(self).map_view() == old(self).map_view().filter(not_key(repository@)).push(
                (repository@, duration),
            ),
            final(self).pending() == old(self).pending().push(((now + duration) as u64, repository@)),
    {
        self.forget(&repository);
        let ghost mid = *self;
        let key = repository.clone();
        self.map.push((key, duration));
        assert(self.map_view() =~= mid.map_view().push((repository@, duration)));
        assert(entry_key(self.map@[self.map@.len() - 1]) == repository@);
        assert(self.snoozed() =~= old(self).snoozed().insert(repository@)) by {
            assert forall|k: Seq<char>| self.snoozed().contains(k) implies mid.snoozed().insert(repository@).contains(k) by {
                let m = choose|m: int| 0 <= m < self.map@.len() && entry_key(self.map@[m]) == k;
                if m < mid.map@.len() {
                    assert(self.map@[m] == mid.map@[m]);
                }
            }
            assert forall|k: Seq<char>| mid.snoozed().insert(repository@).contains(k) implies self.snoozed().contains(k) by {
                if k != repository@ {
                    let j = choose|j: int| 0 <= j < mid.map@.len() && entry_key(mid.map@[j]) == k;
                    assert(self.map@[j] == mid.map@[j]);
                }
            }
        }
        let expires_at = now + duration;
        self.queue.push((expires_at, repository));
        assert(self.pending() =~= mid.pending().push((expires_at, repository@)));
    }

    /// Whether `key` is snoozed.
    pub fn is_snoozed(&self, key: &str) -> (r: bool)
        ensures
            r == self.snoozed().contains(key@),
    {
        let k = key.to_owned();
        let mut i: usize = 0;
        while i < self.map.len()
            invariant
                i <= self.map@.len(),
                k@ == key@,
                forall|j: int| 0 <= j < i ==> #[trigger] entry_key(self.map@[j]) != k@,
            decreases self.map@.len() - i,
        {
            if self.map[i].0 == k {
                assert(entry_key(self.map@[i as int]) == key@);
                return true;
            }
            i += 1;
        }
        false
    }

    /// Whether `key` has a pending end after `now`.
    fn has_later(&self, key: &String, now: u64) -> (r: bool)
        ensures
            r == self.later(now).contains(key@),
    {
        let mut i: usize = 0;
        while i < self.queue.len()
            invariant
                i <= self.queue@.len(),
                forall|j: int|
                    0 <= j < i ==> !(#[trigger] self.pending()[j] == (self.pending()[j].0, key@)
                        && !is_due(self.pending()[j], now)),
            decreases self.queue@.len() - i,
        {
            assert(self.pending()[i as int] == pending_view(self.queue@[i as int]));
            if self.queue[i].0 > now && self.queue[i].1 == *key {
                assert(self.pending()[i as int] == (self.pending()[i as int].0, key@));
                return true;
            }
            i += 1;
        }
        false
    }

    /// Ends the snoozes that are over at the second `now`: the due ends leave
    /// the queue, and a repository stops being snoozed when one of its ends
    /// is due and none lies after `now`, so that a later snooze outlasts an
    /// earlier one.
    pub fn unsnooze_expires(&mut self, now: u64)
        ensures
            final(self).pending() == old(self).pending().filter(|e: (u64, Seq<char>)| !is_due(e, now)),
            final(self).snoozed() == old(self).snoozed().difference(old(self).expired(now)),
            final(self).map_view() == old(self).map_view().filter(outside(old(self).expired(now))),
    {
        let ghost orig = *self;
        let ghost lt = orig.later(now);
        proof {
            assert(due_among(orig.pending(), 0, now) =~= Set::<Seq<char>>::empty());
            assert(due_among(orig.pending(), 0, now).difference(lt) =~= Set::<Seq<char>>::empty());
            lemma_filter_all(orig.map_view(), outside(due_among(orig.pending(), 0, now).difference(lt)));
            assert(orig.snoozed().difference(Set::<Seq<char>>::empty()) =~= orig.snoozed());
        }
        let n = self.queue.len();
        let mut i: usize = 0;
        while i < n
            invariant
                n == orig.queue@.len(),
                i <= n,
                self.queue == orig.queue,
                lt == orig.later(now),
                self.snoozed() == orig.snoozed().difference(due_among(orig.pending(), i as int, now).difference(lt)),
                self.map_view() == orig.map_view().filter(outside(due_among(orig.pending(), i as int, now).difference(lt))),
            decreases n - i,
        {
            let ghost d0 = due_among(orig.pending(), i as int, now);
            let ghost d1 = due_among(orig.pending(), i + 1, now);
            let due_now = self.queue[i].0 <= now;
            let rep = self.queue[i].1.clone();
            proof {
                assert(orig.pending()[i as int] == pending_view(orig.queue@[i as int]));
                assert(orig.pending()[i as int].1 == rep@);
                if due_now {
                    assert(d1 =~= d0.insert(rep@)) by {
                        assert forall|k: Seq<char>| d1.contains(k) implies d0.insert(rep@).contains(k) by {
                            let j = choose|j: int| 0 <= j < i + 1 && #[trigger] orig.pending()[j] == (orig.pending()[j].0, k) && is_due(orig.pending()[j], now);
                            if j < i {
                                assert(d0.contains(k));
                            }
                        }
                        assert(orig.pending()[i as int] == (orig.pending()[i as int].0, rep@));
                        assert(d1.contains(rep@));
                    }
                } else {
                    assert(d1 =~= d0) by {
                        assert forall|k: Seq<char>| d1.contains(k) implies d0.contains(k) by {
                            let j = choose|j: int| 0 <= j < i + 1 && #[trigger] orig.pending()[j] == (orig.pending()[j].0, k) && is_due(orig.pending()[j], now);
                            assert(j < i);
                        }
                    }
                }
            }
            if due_now {
                if !self.has_later(&rep, now) {
                    self.forget(&rep);
                    proof {
                        assert(d1.difference(lt) =~= d0.difference(lt).insert(rep@));
                        assert(self.snoozed() =~= orig.snoozed().difference(d1.difference(lt)));
                        lemma_filter_compose(orig.map_view(), outside(d0.difference(lt)), not_key(rep@), outside(d1.difference(lt)));
                    }
                } else {
                    assert(d1.difference(lt) =~= d0.difference(lt));
                }
            }
            i += 1;
        }
        let mut kept: Vec<(u64, String)> = Vec::new();
        let mut i: usize = 0;
        while i < n
            invariant
                n == orig.queue@.len(),
                i <= n,
                self.queue == orig.queue,
                kept@.map_values(|e: (u64, String)| pending_view(e)) == orig.pending().subrange(0, i as int).filter(|e: (u64, Seq<char>)| !is_due(e, now)),
            decreases n - i,
        {
            let ghost kv0 = kept@.map_values(|e: (u64, String)| pending_view(e));
            proof {
                let p = orig.pending().subrange(0, i as int + 1);
                assert(p.drop_last() =~= orig.pending().subrange(0, i as int));
                assert(p.last() == pending_view(orig.queue@[i as int]));
                reveal(Seq::filter);
            }
            if self.queue[i].0 > now {
                let e = (self.queue[i].0, self.queue[i].1.clone());
                kept.push(e);
                assert(kept@.map_values(|e: (u64, String)| pending_view(e)) =~= kv0.push(pending_view(orig.queue@[i as int])));
            }
            i += 1;
        }
        proof {
            assert(orig.pending().subrange(0, n as int) =~= orig.pending());
            assert(orig.pending().len() == n);
        }
        self.queue = kept;
    }

    /// Messages for the snoozes are not acted on here; nothing changes.
    pub fn handle_snooze_message(&mut self)
        ensures
            *final(self) == *old(self),
    {
    }
}

/// The last snooze of a repository decides when it ends: once a snooze that
/// ends at `end` has been queued, the repository's snooze is not over at any
/// second before `end`, whatever its earlier snoozes were.
pub proof fn lemma_last_snooze_wins(
    before: SnoozeNotifications,
    after: SnoozeNotifications,
    repository: Seq<char>,
    end: u64,
    now: u64,
)
    requires
        after.pending() == before.pending().push((end, repository)),
        now < end,
    ensures
        after.later(now).contains(repository),
        !after.expired(now).contains(repository),
{
    let q = after.pending();
    let i = q.len() - 1;
    assert(q[i] == (q[i].0, repository) && !is_due(q[i], now));
}

} // verus!
