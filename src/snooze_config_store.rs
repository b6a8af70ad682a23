use vstd::prelude::*;
use crate::text::{lemma_name_le_total, lemma_name_le_trans, name_le, name_le_exec};

verus! {

/// Key of a repository row: (owner, repository name).
pub type RepoKey = (Seq<char>, Seq<char>);

/// Key of a reason row: (owner, repository name, reason).
pub type ReasonKey = (Seq<char>, Seq<char>, Seq<char>);

/// One repository row; `until` is the unix second up to which the repository
/// is snoozed, or `None` when it is only known for the inventory.
pub struct RepoRow {
    pub owner: String,
    pub repo: String,
    pub until: Option<i64>,
}

/// One permanent suppression of a reason for a repository.
pub struct ReasonRow {
    pub owner: String,
    pub repo: String,
    pub reason: String,
}

/// A snooze is in force at `now` when it ends strictly after `now`.
pub open spec fn snooze_active(until: Option<i64>, now: i64) -> bool {
    until is Some && until->0 > now
}

/// A snooze has lapsed at `now` when it ends at or before `now`; a row
/// without an end never lapses.
pub open spec fn snooze_expired(until: Option<i64>, now: i64) -> bool {
    until is Some && until->0 <= now
}

/// Whether the repository `k` is snoozed at `now` under the rows `m`.
pub open spec fn repo_snoozed_in(m: Map<RepoKey, Option<i64>>, k: RepoKey, now: i64) -> bool {
    m.contains_key(k) && snooze_active(m[k], now)
}

/// The combined suppression predicate: a running repository snooze or a
/// suppressed reason.
pub open spec fn suppressed_in(
    m: Map<RepoKey, Option<i64>>,
    s: Set<ReasonKey>,
    owner: Seq<char>,
    repo: Seq<char>,
    reason: Seq<char>,
    now: i64,
) -> bool {
    repo_snoozed_in(m, (owner, repo), now) || s.contains((owner, repo, reason))
}

/// Toggling a reason key: the new state (true: now suppressed) and the new
/// set of suppressed reason keys.
pub open spec fn toggled(s: Set<ReasonKey>, t: ReasonKey) -> (bool, Set<ReasonKey>) {
    if s.contains(t) {
        (false, s.remove(t))
    } else {
        (true, s.insert(t))
    }
}

/// Toggling the same reason twice reports two opposite states, each equal to
/// whether the reason is then suppressed, and restores the reasons; from an
/// unsuppressed reason the two states are true, then false.
pub proof fn lemma_toggle_twice(s: Set<ReasonKey>, t: ReasonKey)
    ensures
        toggled(s, t).0 == toggled(s, t).1.contains(t),
        toggled(toggled(s, t).1, t).0 == toggled(toggled(s, t).1, t).1.contains(t),
        toggled(toggled(s, t).1, t).0 == !toggled(s, t).0,
        toggled(toggled(s, t).1, t).1 == s,
        !s.contains(t) ==> toggled(s, t).0 && !toggled(toggled(s, t).1, t).0,
{
    if s.contains(t) {
        assert(s.remove(t).insert(t) =~= s);
    } else {
        assert(s.insert(t).remove(t) =~= s);
    }
}

/// Snoozing a repository twice leaves one entry for it, holding the later
/// end, and no other entry changes.
pub proof fn lemma_snooze_overwrite(m: Map<RepoKey, Option<i64>>, k: RepoKey, first: i64, second: i64)
    ensures
        m.insert(k, Some(first)).insert(k, Some(second)) == m.insert(k, Some(second)),
        m.insert(k, Some(first)).insert(k, Some(second))[k] == Some(second),
        m.insert(k, Some(first)).insert(k, Some(second)).dom() == m.dom().insert(k),
{
    assert(m.insert(k, Some(first)).insert(k, Some(second)) =~= m.insert(k, Some(second)));
}

/// The suppression rules: repository snoozes and reason toggles, at most one
/// row per key in each table.
pub struct SnoozeConfigStore {
    repos: Vec<RepoRow>,
    reasons: Vec<ReasonRow>,
}

impl SnoozeConfigStore {
    pub closed spec fn repo_key_at(&self, i: int) -> RepoKey {
        (self.repos@[i].owner@, self.repos@[i].repo@)
    }

    pub closed spec fn reason_key_at(&self, i: int) -> ReasonKey {
        (self.reasons@[i].owner@, self.reasons@[i].repo@, self.reasons@[i].reason@)
    }

    /// Each key occurs in at most one row of its table.
    pub closed spec fn wf(&self) -> bool {
        &&& forall|i: int, j: int|
            0 <= i < j < self.repos@.len() ==> self.repo_key_at(i) != self.repo_key_at(j)
        &&& forall|i: int, j: int|
            0 <= i < j < self.reasons@.len() ==> self.reason_key_at(i) != self.reason_key_at(j)
    }

    /// The repository table as a map from key to `until`.
    pub closed spec fn snoozes(&self) -> Map<RepoKey, Option<i64>> {
        Map::new(
            |k: RepoKey| exists|i: int| 0 <= i < self.repos@.len() && self.repo_key_at(i) == k,
            |k: RepoKey|
                self.repos@[choose|i: int| 0 <= i < self.repos@.len() && self.repo_key_at(i) == k].until,
        )
    }

    /// The reason table as a set of keys.
    pub closed spec fn reasons(&self) -> Set<ReasonKey> {
        Set::new(|t: ReasonKey| exists|i: int| 0 <= i < self.reasons@.len() && self.reason_key_at(i) == t)
    }

    /// Number of rows in the repository table.
    pub closed spec fn row_count(&self) -> nat {
        self.repos@.len()
    }

    proof fn lemma_snoozes_at(&self, i: int)
        requires
            self.wf(),
            0 <= i < self.repos@.len(),
        ensures
            self.snoozes().contains_key(self.repo_key_at(i)),
            self.snoozes()[self.repo_key_at(i)] == self.repos@[i].until,
    {
        let k = self.repo_key_at(i);
        assert(self.snoozes().contains_key(k));
        let j = choose|j: int| 0 <= j < self.repos@.len() && self.repo_key_at(j) == k;
        if j < i {
            assert(self.repo_key_at(j) != self.repo_key_at(i));
        } else if i < j {
            assert(self.repo_key_at(i) != self.repo_key_at(j));
        }
    }

    /// Relates two stores whose reason tables are the same.
    proof fn lemma_same_reasons(&self, other: &Self)
        requires
            self.reasons@ == other.reasons@,
        ensures
            self.reasons() == other.reasons(),
            forall|i: int| #[trigger] self.reason_key_at(i) == other.reason_key_at(i),
    {
        assert(self.reasons() =~= other.reasons()) by {
            assert forall|t: ReasonKey| self.reasons().contains(t) implies other.reasons().contains(t) by {
                let i = choose|i: int| 0 <= i < self.reasons@.len() && self.reason_key_at(i) == t;
                assert(other.reason_key_at(i) == t);
            }
            assert forall|t: ReasonKey| other.reasons().contains(t) implies self.reasons().contains(t) by {
                let i = choose|i: int| 0 <= i < other.reasons@.len() && other.reason_key_at(i) == t;
                assert(self.reason_key_at(i) == t);
            }
        }
    }

    proof fn lemma_push_repo(old: &Self, new: &Self, row: RepoRow)
        requires
            old.wf(),
            new.repos@ == old.repos@.push(row),
            new.reasons == old.reasons,
            !old.snoozes().contains_key((row.owner@, row.repo@)),
        ensures
            new.wf(),
            new.snoozes() == old.snoozes().insert((row.owner@, row.repo@), row.until),
            new.reasons() == old.reasons(),
            new.row_count() == old.row_count() + 1,
    {
        new.lemma_same_reasons(old);
        let n = old.repos@.len() as int;
        let k = (row.owner@, row.repo@);
        assert(new.repo_key_at(n) == k);
        assert forall|i: int| 0 <= i < n implies new.repo_key_at(i) == old.repo_key_at(i)
            && old.snoozes().contains_key(old.repo_key_at(i)) by {
            assert(new.repos@[i] == old.repos@[i]);
        }
        let m = old.snoozes().insert(k, row.until);
        assert forall|k2: RepoKey| new.snoozes().contains_key(k2) <==> m.contains_key(k2) by {
            if new.snoozes().contains_key(k2) && k2 != k {
                let i = choose|i: int| 0 <= i < new.repos@.len() && new.repo_key_at(i) == k2;
                assert(i < n);
            }
            if old.snoozes().contains_key(k2) {
                let i = choose|i: int| 0 <= i < old.repos@.len() && old.repo_key_at(i) == k2;
                assert(new.repo_key_at(i) == k2);
            }
        }
        new.lemma_snoozes_at(n);
        assert forall|k2: RepoKey| m.contains_key(k2) implies new.snoozes()[k2] == m[k2] by {
            if k2 != k {
                let i = choose|i: int| 0 <= i < old.repos@.len() && old.repo_key_at(i) == k2;
                old.lemma_snoozes_at(i);
                new.lemma_snoozes_at(i);
            }
        }
        assert(new.snoozes() =~= m);
    }

    proof fn lemma_update_repo(old: &Self, new: &Self, j: int, row: RepoRow)
        requires
            old.wf(),
            0 <= j < old.repos@.len(),
            new.repos@ == old.repos@.update(j, row),
            new.reasons == old.reasons,
            old.repo_key_at(j) == (row.owner@, row.repo@),
        ensures
            new.wf(),
            new.snoozes() == old.snoozes().insert((row.owner@, row.repo@), row.until),
            new.reasons() == old.reasons(),
            new.row_count() == old.row_count(),
    {
        new.lemma_same_reasons(old);
        let k = (row.owner@, row.repo@);
        assert forall|i: int| 0 <= i < old.repos@.len() implies new.repo_key_at(i) == old.repo_key_at(i) by {
            if i != j {
                assert(new.repos@[i] == old.repos@[i]);
            }
        }
        let m = old.snoozes().insert(k, row.until);
        assert forall|k2: RepoKey| new.snoozes().contains_key(k2) <==> m.contains_key(k2) by {
            if new.snoozes().contains_key(k2) {
                let i = choose|i: int| 0 <= i < new.repos@.len() && new.repo_key_at(i) == k2;
                assert(old.repo_key_at(i) == k2);
            }
            if old.snoozes().contains_key(k2) {
                let i = choose|i: int| 0 <= i < old.repos@.len() && old.repo_key_at(i) == k2;
                assert(new.repo_key_at(i) == k2);
            }
            if k2 == k {
                assert(new.repo_key_at(j) == k2);
            }
        }
        assert(new.wf());
        new.lemma_snoozes_at(j);
        assert forall|k2: RepoKey| m.contains_key(k2) implies new.snoozes()[k2] == m[k2] by {
            if k2 != k {
                let i = choose|i: int| 0 <= i < old.repos@.len() && old.repo_key_at(i) == k2;
                old.lemma_snoozes_at(i);
                new.lemma_snoozes_at(i);
                assert(new.repos@[i] == old.repos@[i]);
            }
        }
        assert(new.snoozes() =~= m);
    }

    proof fn lemma_remove_repo(old: &Self, new: &Self, j: int)
        requires
            old.wf(),
            0 <= j < old.repos@.len(),
            new.repos@ == old.repos@.remove(j),
            new.reasons == old.reasons,
        ensures
            new.wf(),
            new.snoozes() == old.snoozes().remove(old.repo_key_at(j)),
            new.reasons() == old.reasons(),
            new.row_count() + 1 == old.row_count(),
    {
        new.lemma_same_reasons(old);
        let k = old.repo_key_at(j);
        let n = old.repos@.len() as int;
        assert forall|i: int| 0 <= i < n - 1 implies new.repo_key_at(i) == old.repo_key_at(
            if i < j { i } else { i + 1 },
        ) by {
            if i < j {
                assert(new.repos@[i] == old.repos@[i]);
            } else {
                assert(new.repos@[i] == old.repos@[i + 1]);
            }
        }
        assert(new.wf()) by {
            assert forall|a: int, b: int| 0 <= a < b < new.repos@.len() implies new.repo_key_at(a)
                != new.repo_key_at(b) by {
                let a2 = if a < j { a } else { a + 1 };
                let b2 = if b < j { b } else { b + 1 };
                assert(old.repo_key_at(a2) != old.repo_key_at(b2));
            }
        }
        let m = old.snoozes().remove(k);
        assert forall|k2: RepoKey| new.snoozes().contains_key(k2) <==> m.contains_key(k2) by {
            if new.snoozes().contains_key(k2) {
                let i = choose|i: int| 0 <= i < new.repos@.len() && new.repo_key_at(i) == k2;
                let i2 = if i < j { i } else { i + 1 };
                assert(old.repo_key_at(i2) == k2);
                assert(i2 != j);
            }
            if m.contains_key(k2) {
                let i = choose|i: int| 0 <= i < old.repos@.len() && old.repo_key_at(i) == k2;
                assert(i != j);
                let i1 = if i < j { i } else { i - 1 };
                assert(new.repo_key_at(i1) == k2);
            }
        }
        assert forall|k2: RepoKey| m.contains_key(k2) implies new.snoozes()[k2] == m[k2] by {
            let i = choose|i: int| 0 <= i < old.repos@.len() && old.repo_key_at(i) == k2;
            assert(i != j);
            let i1 = if i < j { i } else { i - 1 };
            assert(new.repos@[i1] == old.repos@[i]);
            old.lemma_snoozes_at(i);
            new.lemma_snoozes_at(i1);
        }
        assert(new.snoozes() =~= m);
    }

    /// Relates two stores whose repository tables are the same.
    proof fn lemma_same_repos(&self, other: &Self)
        requires
            self.repos@ == other.repos@,
            self.wf(),
        ensures
            self.snoozes() == other.snoozes(),
            forall|i: int| #[trigger] self.repo_key_at(i) == other.repo_key_at(i),
            self.row_count() == other.row_count(),
    {
        assert forall|k: RepoKey| self.snoozes().contains_key(k) <==> other.snoozes().contains_key(k) by {
            if self.snoozes().contains_key(k) {
                let i = choose|i: int| 0 <= i < self.repos@.len() && self.repo_key_at(i) == k;
                assert(other.repo_key_at(i) == k);
            }
            if other.snoozes().contains_key(k) {
                let i = choose|i: int| 0 <= i < other.repos@.len() && other.repo_key_at(i) == k;
                assert(self.repo_key_at(i) == k);
            }
        }
        assert forall|k: RepoKey| self.snoozes().contains_key(k) implies self.snoozes()[k]
            == other.snoozes()[k] by {
            let i = choose|i: int| 0 <= i < self.repos@.len() && self.repo_key_at(i) == k;
            self.lemma_snoozes_at(i);
            let j = choose|j: int| 0 <= j < other.repos@.len() && other.repo_key_at(j) == k;
            assert(self.repo_key_at(j) == k);
            if i < j {
                assert(self.repo_key_at(i) != self.repo_key_at(j));
            } else if j < i {
                assert(self.repo_key_at(j) != self.repo_key_at(i));
            }
        }
        assert(self.snoozes() =~= other.snoozes());
    }

    proof fn lemma_push_reason(old: &Self, new: &Self, row: ReasonRow)
        requires
            old.wf(),
            new.reasons@ == old.reasons@.push(row),
            new.repos == old.repos,
            !old.reasons().contains((row.owner@, row.repo@, row.reason@)),
        ensures
            new.wf(),
            new.reasons() == old.reasons().insert((row.owner@, row.repo@, row.reason@)),
            new.snoozes() == old.snoozes(),
            new.row_count() == old.row_count(),
    {
        old.lemma_same_repos(new);
        assert forall|a: int, b: int| 0 <= a < b < new.repos@.len() implies new.repo_key_at(a)
            != new.repo_key_at(b) by {
            assert(old.repo_key_at(a) != old.repo_key_at(b));
        }
        let n = old.reasons@.len() as int;
        let t = (row.owner@, row.repo@, row.reason@);
        assert(new.reason_key_at(n) == t);
        assert forall|i: int| 0 <= i < n implies new.reason_key_at(i) == old.reason_key_at(i)
            && old.reasons().contains(old.reason_key_at(i)) by {
            assert(new.reasons@[i] == old.reasons@[i]);
        }
        let m = old.reasons().insert(t);
        assert forall|t2: ReasonKey| new.reasons().contains(t2) <==> m.contains(t2) by {
            if new.reasons().contains(t2) && t2 != t {
                let i = choose|i: int| 0 <= i < new.reasons@.len() && new.reason_key_at(i) == t2;
                assert(i < n);
            }
            if old.reasons().contains(t2) {
                let i = choose|i: int| 0 <= i < old.reasons@.len() && old.reason_key_at(i) == t2;
                assert(new.reason_key_at(i) == t2);
            }
        }
        assert(new.reasons() =~= m);
    }

    proof fn lemma_remove_reason(old: &Self, new: &Self, j: int)
        requires
            old.wf(),
            0 <= j < old.reasons@.len(),
            new.reasons@ == old.reasons@.remove(j),
            new.repos == old.repos,
        ensures
            new.wf(),
            new.reasons() == old.reasons().remove(old.reason_key_at(j)),
            new.snoozes() == old.snoozes(),
            new.row_count() == old.row_count(),
    {
        old.lemma_same_repos(new);
        assert forall|a: int, b: int| 0 <= a < b < new.repos@.len() implies new.repo_key_at(a)
            != new.repo_key_at(b) by {
            assert(old.repo_key_at(a) != old.repo_key_at(b));
        }
        let t = old.reason_key_at(j);
        let n = old.reasons@.len() as int;
        assert forall|i: int| 0 <= i < n - 1 implies new.reason_key_at(i) == old.reason_key_at(
            if i < j { i } else { i + 1 },
        ) by {
            if i < j {
                assert(new.reasons@[i] == old.reasons@[i]);
            } else {
                assert(new.reasons@[i] == old.reasons@[i + 1]);
            }
        }
        assert(new.wf()) by {
            assert forall|a: int, b: int| 0 <= a < b < new.reasons@.len() implies new.reason_key_at(a)
                != new.reason_key_at(b) by {
                let a2 = if a < j { a } else { a + 1 };
                let b2 = if b < j { b } else { b + 1 };
                assert(old.reason_key_at(a2) != old.reason_key_at(b2));
            }
        }
        let m = old.reasons().remove(t);
        assert forall|t2: ReasonKey| new.reasons().contains(t2) <==> m.contains(t2) by {
            if new.reasons().contains(t2) {
                let i = choose|i: int| 0 <= i < new.reasons@.len() && new.reason_key_at(i) == t2;
                let i2 = if i < j { i } else { i + 1 };
                assert(old.reason_key_at(i2) == t2);
                assert(i2 != j);
            }
            if m.contains(t2) {
                let i = choose|i: int| 0 <= i < old.reasons@.len() && old.reason_key_at(i) == t2;
                assert(i != j);
                let i1 = if i < j { i } else { i - 1 };
                assert(new.reason_key_at(i1) == t2);
            }
        }
        assert(new.reasons() =~= m);
    }

    proof fn lemma_keep_rows(old: &Self, new: &Self, src: Seq<int>, now: i64)
        requires
            old.wf(),
            new.reasons == old.reasons,
            src.len() == new.repos@.len(),
            forall|m: int|
                0 <= m < src.len() ==> 0 <= #[trigger] src[m] < old.repos@.len() && new.repos@[m]
                    == old.repos@[src[m]],
            forall|a: int, b: int| 0 <= a < b < src.len() ==> src[a] < src[b],
            forall|m: int| 0 <= m < new.repos@.len() ==> !snooze_expired(#[trigger] new.repos@[m].until, now),
            forall|j: int|
                0 <= j < old.repos@.len() && !snooze_expired(#[trigger] old.repos@[j].until, now) ==> exists|m: int|
                    0 <= m < src.len() && src[m] == j,
        ensures
            new.wf(),
            forall|k: RepoKey|
                new.snoozes().contains_key(k) <==> old.snoozes().contains_key(k) && !snooze_expired(
                    old.snoozes()[k],
                    now,
                ),
            forall|k: RepoKey| new.snoozes().contains_key(k) ==> new.snoozes()[k] == old.snoozes()[k],
            new.reasons() == old.reasons(),
    {
        new.lemma_same_reasons(old);
        assert forall|m: int| 0 <= m < src.len() implies #[trigger] new.repo_key_at(m) == old.repo_key_at(src[m]) by {}
        assert forall|a: int, b: int| 0 <= a < b < new.repos@.len() implies new.repo_key_at(a)
            != new.repo_key_at(b) by {
            assert(new.repo_key_at(a) == old.repo_key_at(src[a]));
            assert(new.repo_key_at(b) == old.repo_key_at(src[b]));
        }
        assert(new.wf());
        assert forall|k: RepoKey|
            new.snoozes().contains_key(k) <==> old.snoozes().contains_key(k) && !snooze_expired(
                old.snoozes()[k],
                now,
            ) by {
            if new.snoozes().contains_key(k) {
                let m = choose|m: int| 0 <= m < new.repos@.len() && new.repo_key_at(m) == k;
                old.lemma_snoozes_at(src[m]);
            }
            if old.snoozes().contains_key(k) && !snooze_expired(old.snoozes()[k], now) {
                let i = choose|i: int| 0 <= i < old.repos@.len() && old.repo_key_at(i) == k;
                old.lemma_snoozes_at(i);
                let m = choose|m: int| 0 <= m < src.len() && src[m] == i;
                assert(new.repo_key_at(m) == k);
            }
        }
        assert forall|k: RepoKey| new.snoozes().contains_key(k) implies new.snoozes()[k]
            == old.snoozes()[k] by {
            let m = choose|m: int| 0 <= m < new.repos@.len() && new.repo_key_at(m) == k;
            old.lemma_snoozes_at(src[m]);
            new.lemma_snoozes_at(m);
        }
    }

    /// The keys of the first `n` repository rows.
    spec fn keys_upto(&self, n: int) -> Set<RepoKey> {
        Set::new(|k: RepoKey| exists|i: int| 0 <= i < n && self.repo_key_at(i) == k)
    }

    proof fn lemma_keys_upto_len(&self, n: int)
        requires
            self.wf(),
            0 <= n <= self.repos@.len(),
        ensures
            self.keys_upto(n).finite(),
            self.keys_upto(n).len() == n,
        decreases n,
    {
        if n == 0 {
            assert(self.keys_upto(0) =~= Set::<RepoKey>::empty());
        } else {
            self.lemma_keys_upto_len(n - 1);
            assert(self.keys_upto(n) =~= self.keys_upto(n - 1).insert(self.repo_key_at(n - 1)));
            assert(!self.keys_upto(n - 1).contains(self.repo_key_at(n - 1))) by {
                if self.keys_upto(n - 1).contains(self.repo_key_at(n - 1)) {
                    let i = choose|i: int| 0 <= i < n - 1 && #[trigger] self.repo_key_at(i) == self.repo_key_at(n - 1);
                    assert(self.repo_key_at(i) != self.repo_key_at(n - 1));
                }
            }
        }
    }

    /// A well-formed store has one row per repository it knows.
    pub proof fn lemma_row_count(&self)
        requires
            self.wf(),
        ensures
            self.snoozes().dom().finite(),
            self.snoozes().dom().len() == self.row_count(),
    {
        self.lemma_keys_upto_len(self.repos@.len() as int);
        assert(self.snoozes().dom() =~= self.keys_upto(self.repos@.len() as int));
    }


    /// An empty store.
    pub fn new() -> (r: SnoozeConfigStore)
        ensures
            r.wf(),
            r.snoozes() == Map::<RepoKey, Option<i64>>::empty(),
            r.reasons() == Set::<ReasonKey>::empty(),
            r.row_count() == 0,
    {
        let r = SnoozeConfigStore { repos: Vec::new(), reasons: Vec::new() };
        assert(r.snoozes() =~= Map::<RepoKey, Option<i64>>::empty());
        assert(r.reasons() =~= Set::<ReasonKey>::empty());
        r
    }

    /// Index of the row for (owner, repo), if there is one.
    fn find_repo(&self, owner: &String, repo: &String) -> (r: Option<usize>)
        requires
            self.wf(),
        ensures
            r is Some ==> r->0 < self.repos@.len() && self.repo_key_at(r->0 as int) == (owner@, repo@),
            r is None ==> !self.snoozes().contains_key((owner@, repo@)),
    {
        let mut i: usize = 0;
        while i < self.repos.len()
            invariant
                i <= self.repos@.len(),
                forall|j: int| 0 <= j < i ==> self.repo_key_at(j) != (owner@, repo@),
            decreases self.repos@.len() - i,
        {
            if self.repos[i].owner == *owner && self.repos[i].repo == *repo {
                return Some(i);
            }
            i += 1;
        }
        None
    }
    /// Records that a repository exists; an existing row, and its `until`,
    /// stay as they are.
    pub fn add_repo(&mut self, owner: &str, repo: &str)
        requires
            old(self).wf(),
        ensures
            final(self).wf(),
            final(self).snoozes() == (if old(self).snoozes().contains_key((owner@, repo@)) {
                old(self).snoozes()
            } else {
                old(self).snoozes().insert((owner@, repo@), None)
            }),
            final(self).reasons() == old(self).reasons(),
            final(self).row_count() == old(self).row_count() + (if old(self).snoozes().contains_key(
                (owner@, repo@),
            ) {
                0int
            } else {
                1int
            }),
    {
        let o = owner.to_owned();
        let r = repo.to_owned();
        match self.find_repo(&o, &r) {
            Some(i) => {
                proof {
                    self.lemma_snoozes_at(i as int);
                }
            },
            None => {
                let ghost prev = *self;
                let row = RepoRow { owner: o, repo: r, until: None };
                self.repos.push(row);
                proof {
                    Self::lemma_push_repo(&prev, self, row);
                }
            },
        }
    }

    /// Snoozes a repository until the unix second `until`, replacing any
    /// earlier value.
    pub fn snooze_repo(&mut self, owner: &str, repo: &str, until: i64)
        requires
            old(self).wf(),
        ensures
            final(self).wf(),
            final(self).snoozes() == old(self).snoozes().insert((owner@, repo@), Some(until)),
            final(self).reasons() == old(self).reasons(),
            final(self).row_count() == old(self).row_count() + (if old(self).snoozes().contains_key(
                (owner@, repo@),
            ) {
                0int
            } else {
                1int
            }),
    {
        let o = owner.to_owned();
        let r = repo.to_owned();
        let ghost prev = *self;
        match self.find_repo(&o, &r) {
            Some(i) => {
                let row = RepoRow { owner: o, repo: r, until: Some(until) };
                self.repos.set(i, row);
                proof {
                    Self::lemma_update_repo(&prev, self, i as int, row);
                    prev.lemma_snoozes_at(i as int);
                }
            },
            None => {
                let row = RepoRow { owner: o, repo: r, until: Some(until) };
                self.repos.push(row);
                proof {
                    Self::lemma_push_repo(&prev, self, row);
                }
            },
        }
    }

    /// Deletes the row of a repository; returns whether there was one.
    pub fn unsnooze_repo(&mut self, owner: &str, repo: &str) -> (r: bool)
        requires
            old(self).wf(),
        ensures
            final(self).wf(),
            r == old(self).snoozes().contains_key((owner@, repo@)),
            final(self).snoozes() == old(self).snoozes().remove((owner@, repo@)),
            final(self).reasons() == old(self).reasons(),
            final(self).row_count() + (if r {
                1int
            } else {
                0int
            }) == old(self).row_count(),
    {
        let o = owner.to_owned();
        let r = repo.to_owned();
        let ghost prev = *self;
        match self.find_repo(&o, &r) {
            Some(i) => {
                self.repos.remove(i);
                proof {
                    Self::lemma_remove_repo(&prev, self, i as int);
                    prev.lemma_snoozes_at(i as int);
                }
                true
            },
            None => {
                assert(prev.snoozes().remove((owner@, repo@)) =~= prev.snoozes());
                false
            },
        }
    }

    /// Whether the repository has a row whose `until` lies after `now`.
    pub fn is_repo_snoozed(&self, owner: &str, repo: &str, now: i64) -> (r: bool)
        requires
            self.wf(),
        ensures
            r == repo_snoozed_in(self.snoozes(), (owner@, repo@), now),
    {
        let o = owner.to_owned();
        let rp = repo.to_owned();
        match self.find_repo(&o, &rp) {
            Some(i) => {
                proof {
                    self.lemma_snoozes_at(i as int);
                }
                match self.repos[i].until {
                    Some(u) => u > now,
                    None => false,
                }
            },
            None => false,
        }
    }
    /// Index of the reason row for (owner, repo, reason), if there is one.
    fn find_reason(&self, owner: &String, repo: &String, reason: &String) -> (r: Option<usize>)
        requires
            self.wf(),
        ensures
            r is Some ==> r->0 < self.reasons@.len() && self.reason_key_at(r->0 as int) == (
                owner@,
                repo@,
                reason@,
            ),
            r is Some == self.reasons().contains((owner@, repo@, reason@)),
    {
        let mut i: usize = 0;
        while i < self.reasons.len()
            invariant
                i <= self.reasons@.len(),
                forall|j: int| 0 <= j < i ==> self.reason_key_at(j) != (owner@, repo@, reason@),
            decreases self.reasons@.len() - i,
        {
            if self.reasons[i].owner == *owner && self.reasons[i].repo == *repo
                && self.reasons[i].reason == *reason {
                assert(self.reason_key_at(i as int) == (owner@, repo@, reason@));
                return Some(i);
            }
            i += 1;
        }
        None
    }

    fn insert_reason(&mut self, owner: String, repo: String, reason: String)
        requires
            old(self).wf(),
        ensures
            final(self).wf(),
            final(self).reasons() == old(self).reasons().insert((owner@, repo@, reason@)),
            final(self).snoozes() == old(self).snoozes(),
    {
        let ghost prev = *self;
        match self.find_reason(&owner, &repo, &reason) {
            Some(_) => {
                assert(prev.reasons().insert((owner@, repo@, reason@)) =~= prev.reasons());
            },
            None => {
                let row = ReasonRow { owner, repo, reason };
                self.reasons.push(row);
                proof {
                    Self::lemma_push_reason(&prev, self, row);
                }
            },
        }
    }

    fn delete_reason(&mut self, owner: String, repo: String, reason: String)
        requires
            old(self).wf(),
        ensures
            final(self).wf(),
            final(self).reasons() == old(self).reasons().remove((owner@, repo@, reason@)),
            final(self).snoozes() == old(self).snoozes(),
    {
        let ghost prev = *self;
        match self.find_reason(&owner, &repo, &reason) {
            Some(i) => {
                self.reasons.remove(i);
                proof {
                    Self::lemma_remove_reason(&prev, self, i as int);
                }
            },
            None => {
                assert(prev.reasons().remove((owner@, repo@, reason@)) =~= prev.reasons());
            },
        }
    }

    /// Suppresses a reason for a repository; a missing reason stands for the
    /// empty one.
    pub fn snooze_reason(&mut self, owner: &str, repo: &str, reason: Option<&str>)
        requires
            old(self).wf(),
        ensures
            final(self).wf(),
            final(self).reasons() == old(self).reasons().insert(
                (owner@, repo@, if reason is Some { reason->0@ } else { Seq::<char>::empty() }),
            ),
            final(self).snoozes() == old(self).snoozes(),
    {
        let rs = match reason {
            Some(x) => x.to_owned(),
            None => String::new(),
        };
        self.insert_reason(owner.to_owned(), repo.to_owned(), rs);
    }

    /// Lifts the suppression of a reason for a repository; a missing reason
    /// stands for the empty one.
    pub fn unsooze_reason(&mut self, owner: &str, repo: &str, reason: Option<&str>)
        requires
            old(self).wf(),
        ensures
            final(self).wf(),
            final(self).reasons() == old(self).reasons().remove(
                (owner@, repo@, if reason is Some { reason->0@ } else { Seq::<char>::empty() }),
            ),
            final(self).snoozes() == old(self).snoozes(),
    {
        let rs = match reason {
            Some(x) => x.to_owned(),
            None => String::new(),
        };
        self.delete_reason(owner.to_owned(), repo.to_owned(), rs);
    }

    /// Flips the suppression of a reason for a repository and returns the new
    /// state (true: now suppressed).
    pub fn toggle_reason(&mut self, owner: &str, repo: &str, reason: &str) -> (r: bool)
        requires
            old(self).wf(),
        ensures
            final(self).wf(),
            (r, final(self).reasons()) == toggled(old(self).reasons(), (owner@, repo@, reason@)),
            final(self).snoozes() == old(self).snoozes(),
    {
        let o = owner.to_owned();
        let rp = repo.to_owned();
        let rs = reason.to_owned();
        let ghost prev = *self;
        match self.find_reason(&o, &rp, &rs) {
            Some(i) => {
                self.reasons.remove(i);
                proof {
                    Self::lemma_remove_reason(&prev, self, i as int);
                }
                false
            },
            None => {
                let row = ReasonRow { owner: o, repo: rp, reason: rs };
                self.reasons.push(row);
                proof {
                    Self::lemma_push_reason(&prev, self, row);
                }
                true
            },
        }
    }

    /// Whether the reason is suppressed for the repository.
    pub fn is_repo_snoozed_for_reason(&self, owner: &str, repo: &str, reason: &str) -> (r: bool)
        requires
            self.wf(),
        ensures
            r == self.reasons().contains((owner@, repo@, reason@)),
    {
        self.find_reason(&owner.to_owned(), &repo.to_owned(), &reason.to_owned()).is_some()
    }

    /// The one predicate that decides suppression: the repository is snoozed
    /// at `now`, or the reason is suppressed for it.
    pub fn should_snooze_for_reason(&self, owner: &str, repo: &str, reason: &str, now: i64) -> (r:
        bool)
        requires
            self.wf(),
        ensures
            r == suppressed_in(self.snoozes(), self.reasons(), owner@, repo@, reason@, now),
    {
        self.is_repo_snoozed(owner, repo, now) || self.is_repo_snoozed_for_reason(owner, repo, reason)
    }
    /// Deletes the repository rows whose snooze has lapsed at `now` (rows
    /// without an end stay); returns how many rows went.
    pub fn prune_expired(&mut self, now: i64) -> (r: usize)
        requires
            old(self).wf(),
        ensures
            final(self).wf(),
            forall|k: RepoKey|
                final(self).snoozes().contains_key(k) <==> old(self).snoozes().contains_key(k)
                    && !snooze_expired(old(self).snoozes()[k], now),
            forall|k: RepoKey|
                final(self).snoozes().contains_key(k) ==> final(self).snoozes()[k] == old(
                    self,
                ).snoozes()[k],
            final(self).reasons() == old(self).reasons(),
            r + final(self).row_count() == old(self).row_count(),
            r + final(self).snoozes().dom().len() == old(self).snoozes().dom().len(),
    {
        let ghost prev = *self;
        let mut kept: Vec<RepoRow> = Vec::new();
        let ghost mut src: Seq<int> = Seq::empty();
        let mut removed: usize = 0;
        let n = self.repos.len();
        let mut i: usize = 0;
        while i < n
            invariant
                *self == prev,
                n == self.repos@.len(),
                i <= n,
                kept@.len() + removed == i,
                src.len() == kept@.len(),
                forall|m: int|
                    0 <= m < src.len() ==> 0 <= #[trigger] src[m] < i && kept@[m] == self.repos@[src[m]],
                forall|a: int, b: int| 0 <= a < b < src.len() ==> src[a] < src[b],
                forall|m: int| 0 <= m < kept@.len() ==> !snooze_expired(#[trigger] kept@[m].until, now),
                forall|j: int|
                    0 <= j < i && !snooze_expired(#[trigger] self.repos@[j].until, now) ==> exists|m: int|
                        0 <= m < src.len() && src[m] == j,
            decreases n - i,
        {
            let ghost src0 = src;
            let expired = match self.repos[i].until {
                Some(u) => u <= now,
                None => false,
            };
            if expired {
                removed += 1;
            } else {
                let row = RepoRow {
                    owner: self.repos[i].owner.clone(),
                    repo: self.repos[i].repo.clone(),
                    until: self.repos[i].until,
                };
                kept.push(row);
                proof {
                    src = src.push(i as int);
                    assert(src[src.len() - 1] == i as int);
                }
            }
            proof {
                assert forall|j: int|
                    0 <= j < i + 1 && !snooze_expired(#[trigger] self.repos@[j].until, now) implies exists|m: int|
                        0 <= m < src.len() && src[m] == j by {
                    if j == i {
                        assert(src[src.len() - 1] == j);
                    } else {
                        let m = choose|m: int| 0 <= m < src0.len() && src0[m] == j;
                        assert(src[m] == src0[m]);
                    }
                }
            }
            i += 1;
        }
        self.repos = kept;
        proof {
            Self::lemma_keep_rows(&prev, self, src, now);
            prev.lemma_row_count();
            self.lemma_row_count();
        }
        removed
    }
    /// First position of `out` whose name sorts strictly after `name`.
    fn name_insert_position(out: &Vec<(String, String)>, name: &String) -> (p: usize)
        ensures
            p <= out@.len(),
            forall|m: int| 0 <= m < p ==> name_le(#[trigger] out@[m].1@, name@),
            p < out@.len() ==> !name_le(out@[p as int].1@, name@),
    {
        let mut p: usize = 0;
        while p < out.len()
            invariant
                p <= out@.len(),
                forall|m: int| 0 <= m < p ==> name_le(#[trigger] out@[m].1@, name@),
            decreases out@.len() - p,
        {
            if !name_le_exec(out[p].1.as_str(), name.as_str()) {
                return p;
            }
            p += 1;
        }
        p
    }

    /// All known repositories as (owner, repo), each once, in the order of
    /// their repository names.
    pub fn list_all_repos(&self) -> (r: Vec<(String, String)>)
        requires
            self.wf(),
        ensures
            r@.len() == self.row_count(),
            forall|m: int|
                0 <= m < r@.len() ==> self.snoozes().contains_key((#[trigger] r@[m].0@, r@[m].1@)),
            forall|k: RepoKey|
                self.snoozes().contains_key(k) ==> exists|m: int|
                    0 <= m < r@.len() && (#[trigger] r@[m].0@, r@[m].1@) == k,
            forall|a: int, b: int|
                0 <= a < b < r@.len() ==> (r@[a].0@, r@[a].1@) != (r@[b].0@, r@[b].1@),
            forall|a: int, b: int| 0 <= a < b < r@.len() ==> name_le(r@[a].1@, r@[b].1@),
    {
        let mut out: Vec<(String, String)> = Vec::new();
        let ghost mut src: Seq<int> = Seq::empty();
        let n = self.repos.len();
        let mut i: usize = 0;
        while i < n
            invariant
                n == self.repos@.len(),
                i <= n,
                self.wf(),
                src.len() == out@.len(),
                out@.len() == i,
                forall|m: int|
                    0 <= m < src.len() ==> 0 <= #[trigger] src[m] < i && (out@[m].0@, out@[m].1@)
                        == self.repo_key_at(src[m]),
                forall|a: int, b: int| 0 <= a < b < src.len() ==> src[a] != src[b],
                forall|j: int| 0 <= j < i ==> src.contains(j),
                forall|a: int, b: int| 0 <= a < b < out@.len() ==> name_le(out@[a].1@, out@[b].1@),
            decreases n - i,
        {
            let ghost out0 = out@;
            let ghost src0 = src;
            let item = (self.repos[i].owner.clone(), self.repos[i].repo.clone());
            let p = Self::name_insert_position(&out, &item.1);
            out.insert(p, item);
            proof {
                out0.insert_ensures(p as int, item);
                src = src0.insert(p as int, i as int);
                src0.insert_ensures(p as int, i as int);
                assert forall|m: int| 0 <= m < src.len() implies 0 <= #[trigger] src[m] < i + 1 && (
                    out@[m].0@,
                    out@[m].1@,
                ) == self.repo_key_at(src[m]) by {
                    if m > p {
                        assert(src[m] == src0[m - 1]);
                    }
                }
                assert forall|a: int, b: int| 0 <= a < b < src.len() implies src[a] != src[b] by {
                    if a == p {
                        assert(src0[b - 1] < i);
                    } else if b == p {
                        assert(src0[a] < i);
                    } else {
                        let a0 = if a < p { a } else { a - 1 };
                        let b0 = if b < p { b } else { b - 1 };
                        assert(src0[a0] != src0[b0]);
                    }
                }
                assert forall|j: int| 0 <= j < i + 1 implies src.contains(j) by {
                    if j == i {
                        assert(src[p as int] == j);
                    } else {
                        assert(src0.contains(j));
                        let m0 = choose|m: int| 0 <= m < src0.len() && src0[m] == j;
                        if m0 < p {
                            assert(src[m0] == j);
                        } else {
                            assert(src[m0 + 1] == j);
                        }
                    }
                }
                assert forall|a: int, b: int| 0 <= a < b < out@.len() implies name_le(
                    out@[a].1@,
                    out@[b].1@,
                ) by {
                    let nm = item.1@;
                    if p < out0.len() {
                        lemma_name_le_total(out0[p as int].1@, nm);
                    }
                    if a == p && b > p + 1 {
                        lemma_name_le_trans(nm, out0[p as int].1@, out0[b - 1].1@);
                    }
                }
            }
            i += 1;
        }
        proof {
            assert forall|k: RepoKey| self.snoozes().contains_key(k) implies exists|m: int|
                0 <= m < out@.len() && (#[trigger] out@[m].0@, out@[m].1@) == k by {
                let j = choose|j: int| 0 <= j < self.repos@.len() && self.repo_key_at(j) == k;
                assert(src.contains(j));
                let m = choose|m: int| 0 <= m < src.len() && src[m] == j;
                assert((out@[m].0@, out@[m].1@) == k);
            }
            assert forall|m: int| 0 <= m < out@.len() implies self.snoozes().contains_key(
                (#[trigger] out@[m].0@, out@[m].1@),
            ) by {
                self.lemma_snoozes_at(src[m]);
            }
            assert forall|a: int, b: int| 0 <= a < b < out@.len() implies (out@[a].0@, out@[a].1@) != (
                out@[b].0@,
                out@[b].1@,
            ) by {
                if src[a] < src[b] {
                    assert(self.repo_key_at(src[a]) != self.repo_key_at(src[b]));
                } else {
                    assert(self.repo_key_at(src[b]) != self.repo_key_at(src[a]));
                }
            }
        }
        out
    }
    /// First position of `out` whose end lies strictly before `until`.
    fn until_insert_position(out: &Vec<(String, String, i64)>, until: i64) -> (p: usize)
        ensures
            p <= out@.len(),
            forall|m: int| 0 <= m < p ==> #[trigger] out@[m].2 >= until,
            p < out@.len() ==> out@[p as int].2 < until,
    {
        let mut p: usize = 0;
        while p < out.len()
            invariant
                p <= out@.len(),
                forall|m: int| 0 <= m < p ==> #[trigger] out@[m].2 >= until,
            decreases out@.len() - p,
        {
            if out[p].2 < until {
                return p;
            }
            p += 1;
        }
        p
    }

    /// The repositories snoozed at `now` as (owner, repo, until), each once,
    /// the latest end first.
    pub fn list_snoozed_repos(&self, now: i64) -> (r: Vec<(String, String, i64)>)
        requires
            self.wf(),
        ensures
            forall|m: int|
                0 <= m < r@.len() ==> repo_snoozed_in(self.snoozes(), (#[trigger] r@[m].0@, r@[m].1@), now)
                    && self.snoozes()[(r@[m].0@, r@[m].1@)] == Some(r@[m].2),
            forall|k: RepoKey|
                repo_snoozed_in(self.snoozes(), k, now) ==> exists|m: int|
                    0 <= m < r@.len() && (#[trigger] r@[m].0@, r@[m].1@) == k,
            forall|a: int, b: int|
                0 <= a < b < r@.len() ==> (r@[a].0@, r@[a].1@) != (r@[b].0@, r@[b].1@),
            forall|a: int, b: int| 0 <= a < b < r@.len() ==> r@[a].2 >= r@[b].2,
    {
        let mut out: Vec<(String, String, i64)> = Vec::new();
        let ghost mut src: Seq<int> = Seq::empty();
        let n = self.repos.len();
        let mut i: usize = 0;
        while i < n
            invariant
                n == self.repos@.len(),
                i <= n,
                self.wf(),
                src.len() == out@.len(),
                forall|m: int|
                    0 <= m < src.len() ==> 0 <= #[trigger] src[m] < i && (out@[m].0@, out@[m].1@)
                        == self.repo_key_at(src[m]) && self.repos@[src[m]].until == Some(out@[m].2)
                        && out@[m].2 > now,
                forall|a: int, b: int| 0 <= a < b < src.len() ==> src[a] != src[b],
                forall|j: int|
                    0 <= j < i && snooze_active(#[trigger] self.repos@[j].until, now) ==> src.contains(j),
                forall|a: int, b: int| 0 <= a < b < out@.len() ==> out@[a].2 >= out@[b].2,
            decreases n - i,
        {
            let ghost out0 = out@;
            let ghost src0 = src;
            match self.repos[i].until {
                Some(u) => {
                    if u > now {
                        let item = (self.repos[i].owner.clone(), self.repos[i].repo.clone(), u);
                        let p = Self::until_insert_position(&out, u);
                        out.insert(p, item);
                        proof {
                            out0.insert_ensures(p as int, item);
                            src = src0.insert(p as int, i as int);
                            src0.insert_ensures(p as int, i as int);
                            assert forall|m: int| 0 <= m < src.len() implies 0 <= #[trigger] src[m] < i
                                + 1 && (out@[m].0@, out@[m].1@) == self.repo_key_at(src[m])
                                && self.repos@[src[m]].until == Some(out@[m].2) && out@[m].2 > now by {
                                if m > p {
                                    assert(src[m] == src0[m - 1]);
                                }
                            }
                            assert forall|a: int, b: int| 0 <= a < b < src.len() implies src[a]
                                != src[b] by {
                                if a == p {
                                    assert(src0[b - 1] < i);
                                } else if b == p {
                                    assert(src0[a] < i);
                                } else {
                                    let a0 = if a < p { a } else { a - 1 };
                                    let b0 = if b < p { b } else { b - 1 };
                                    assert(src0[a0] != src0[b0]);
                                }
                            }
                            assert forall|j: int|
                                0 <= j < i + 1 && snooze_active(
                                    #[trigger] self.repos@[j].until,
                                    now,
                                ) implies src.contains(j) by {
                                if j == i {
                                    assert(src[p as int] == j);
                                } else {
                                    assert(src0.contains(j));
                                    let m0 = choose|m: int| 0 <= m < src0.len() && src0[m] == j;
                                    if m0 < p {
                                        assert(src[m0] == j);
                                    } else {
                                        assert(src[m0 + 1] == j);
                                    }
                                }
                            }
                        }
                    }
                },
                None => {},
            }
            i += 1;
        }
        proof {
            assert forall|k: RepoKey| repo_snoozed_in(self.snoozes(), k, now) implies exists|m: int|
                0 <= m < out@.len() && (#[trigger] out@[m].0@, out@[m].1@) == k by {
                let j = choose|j: int| 0 <= j < self.repos@.len() && self.repo_key_at(j) == k;
                self.lemma_snoozes_at(j);
                assert(src.contains(j));
                let m = choose|m: int| 0 <= m < src.len() && src[m] == j;
                assert((out@[m].0@, out@[m].1@) == k);
            }
            assert forall|m: int| 0 <= m < out@.len() implies repo_snoozed_in(
                self.snoozes(),
                (#[trigger] out@[m].0@, out@[m].1@),
                now,
            ) && self.snoozes()[(out@[m].0@, out@[m].1@)] == Some(out@[m].2) by {
                self.lemma_snoozes_at(src[m]);
            }
            assert forall|a: int, b: int| 0 <= a < b < out@.len() implies (out@[a].0@, out@[a].1@) != (
                out@[b].0@,
                out@[b].1@,
            ) by {
                if src[a] < src[b] {
                    assert(self.repo_key_at(src[a]) != self.repo_key_at(src[b]));
                } else {
                    assert(self.repo_key_at(src[b]) != self.repo_key_at(src[a]));
                }
            }
        }
        out
    }
}

} // verus!
