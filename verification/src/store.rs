//! The assignment store: one insertion-ordered collection of homework
//! records plus the allocator counter for the next id. Every operation
//! preserves the store's well-formedness: each stored record has an id,
//! ids are pairwise distinct, and all sit strictly below the counter,
//! so the counter never reissues an id, deleted or not.

use vstd::prelude::*;
use crate::homework::Homework;
use crate::validation::valid_course_code;

verus! {

/// What a successful mutation reports.
#[derive(Clone, Copy, PartialEq, Eq, Structural, Debug)]
pub enum MutationOutcome {
    Created,
    Updated,
    Deleted,
}

/// Why a mutation was refused. Nothing is changed on either error.
#[derive(Clone, Copy, PartialEq, Eq, Structural, Debug)]
pub enum StoreError {
    InvalidInput,
    NotFound,
}

/// The subsequence of records that are live with respect to `now`,
/// in their original order.
pub open spec fn live_only(s: Seq<Homework>, now: i64) -> Seq<Homework> {
    s.filter(|h: Homework| crate::homework::is_live(h, now))
}

/// Some record in the sequence carries this id.
pub open spec fn has_id(s: Seq<Homework>, id: u64) -> bool {
    exists|i: int| 0 <= i < s.len() && (#[trigger] s[i]).id == Some(id)
}

/// Every record has an id, all ids lie strictly below `bound`, and no
/// two records share one.
pub open spec fn ids_ok(s: Seq<Homework>, bound: u64) -> bool {
    &&& forall|i: int| 0 <= i < s.len() ==> (#[trigger] s[i]).id is Some
    &&& forall|i: int| 0 <= i < s.len() ==> (#[trigger] s[i]).id->Some_0 < bound
    &&& forall|i: int, j: int|
        0 <= i < j < s.len() ==> (#[trigger] s[i]).id != (#[trigger] s[j]).id
}

/// The largest id carried by any record in the sequence, or zero if
/// the sequence is empty (ids themselves are at least one in a
/// well-formed store, so zero is below every real id).
pub open spec fn max_id(s: Seq<Homework>) -> nat
    decreases s.len(),
{
    if s.len() == 0 {
        0
    } else {
        let rest = max_id(s.drop_last());
        let last = if s.last().id is Some {
            s.last().id->Some_0 as nat
        } else {
            0
        };
        if last > rest {
            last
        } else {
            rest
        }
    }
}

/// A restorable snapshot: every record carries an id, ids are pairwise
/// distinct, and each leaves room to seed the allocator above it.
pub open spec fn snapshot_ok(s: Seq<Homework>) -> bool {
    &&& forall|i: int| 0 <= i < s.len() ==> (#[trigger] s[i]).id is Some
    &&& forall|i: int| 0 <= i < s.len() ==> (#[trigger] s[i]).id->Some_0 < u64::MAX
    &&& forall|i: int, j: int|
        0 <= i < j < s.len() ==> (#[trigger] s[i]).id != (#[trigger] s[j]).id
}

/// Every id in the sequence is at most the maximum — so an allocator
/// seeded at `max_id + 1` sits strictly above every restored id and
/// never reissues one.
pub proof fn lemma_max_id_bounds(s: Seq<Homework>)
    ensures
        forall|i: int|
            0 <= i < s.len() && (#[trigger] s[i]).id is Some ==> s[i].id->Some_0 as nat <= max_id(
                s,
            ),
    decreases s.len(),
{
    if s.len() == 0 {
    } else {
        let rest = s.drop_last();
        assert(forall|i: int| 0 <= i < rest.len() ==> rest[i] == s[i]);
        lemma_max_id_bounds(rest);
        assert(max_id(rest) <= max_id(s));
    }
}

/// Purging expired records keeps the store well-formed: the surviving
/// subsequence still has pairwise-distinct ids, all below the bound,
/// and each survivor was among the original records.
pub proof fn lemma_live_only_ids_ok(s: Seq<Homework>, now: i64, bound: u64)
    requires
        ids_ok(s, bound),
    ensures
        ids_ok(live_only(s, now), bound),
        forall|k: int|
            0 <= k < live_only(s, now).len() ==> s.contains(#[trigger] live_only(s, now)[k]),
    decreases s.len(),
{
    reveal(Seq::filter);
    if s.len() == 0 {
    } else {
        let rest = s.drop_last();
        assert(forall|i: int| 0 <= i < rest.len() ==> rest[i] == s[i]);
        assert(ids_ok(rest, bound));
        lemma_live_only_ids_ok(rest, now, bound);
        let out = live_only(s, now);
        let sub = live_only(rest, now);
        assert forall|k: int| 0 <= k < out.len() implies s.contains(#[trigger] out[k]) by {
            if k < sub.len() {
                assert(rest.contains(sub[k]));
                let j = choose|j: int| 0 <= j < rest.len() && rest[j] == sub[k];
                assert(s[j] == out[k]);
            } else {
                assert(out[k] == s[s.len() - 1]);
            }
        }
        assert forall|i: int, j: int| 0 <= i < j < out.len() implies (#[trigger] out[i]).id != (
        #[trigger] out[j]).id by {
            if j < sub.len() {
            } else if crate::homework::is_live(s.last(), now) {
                assert(out[j] == s.last());
                assert(rest.contains(sub[i]));
                let m = choose|m: int| 0 <= m < rest.len() && rest[m] == sub[i];
                assert(s[m].id != s[s.len() - 1].id);
            }
        }
    }
}

/// Law (persistence round trip): a well-formed store's records always
/// form a sound snapshot, so writing them out and rebuilding a store
/// from them — `from_snapshot`'s contract — reproduces an equal
/// collection, with the allocator seeded strictly above every id the
/// snapshot holds.
pub proof fn lemma_snapshot_round_trip(s: Store)
    requires
        s.wf(),
    ensures
        snapshot_ok(s.assignments@),
        forall|i: int|
            0 <= i < s.assignments@.len() ==> (#[trigger] s.assignments@[i]).id->Some_0 < max_id(
                s.assignments@,
            ) + 1,
{
    lemma_max_id_bounds(s.assignments@);
}

/// Law (uniqueness): in a well-formed store no two records share an
/// id. Every operation requires and re-establishes well-formedness,
/// so this holds of every reachable store.
pub proof fn lemma_ids_unique(s: Store)
    requires
        s.wf(),
    ensures
        forall|i: int, j: int|
            0 <= i < j < s.assignments@.len() ==> (#[trigger] s.assignments@[i]).id != (
            #[trigger] s.assignments@[j]).id,
{
}

/// Law (freshness): the id the next create will assign — the
/// allocator's counter — sits strictly above every id currently
/// stored, deleted ids included, since the counter never rewinds.
pub proof fn lemma_next_id_fresh(s: Store)
    requires
        s.wf(),
    ensures
        forall|i: int|
            0 <= i < s.assignments@.len() ==> (#[trigger] s.assignments@[i]).id->Some_0
                < s.next_id,
{
}

/// Law (monotonicity): ids assigned by successive creates strictly
/// increase, even across intervening deletes. A create assigns the
/// counter and advances it; no operation ever lowers it; so a later
/// create's id exceeds an earlier one's, and exceeds every id the
/// earlier store held.
pub proof fn lemma_assigned_ids_increase(earlier: Store, later: Store, first: u64, second: u64)
    requires
        earlier.wf(),
        later.wf(),
        first == earlier.next_id,
        later.next_id > earlier.next_id,
        second == later.next_id,
    ensures
        second > first,
        forall|i: int|
            0 <= i < earlier.assignments@.len() ==> (#[trigger] earlier.assignments@[
                i
            ]).id->Some_0 < second,
{
}

/// Law (failure is stable): a delete that found nothing changes
/// nothing, so the same id is still absent afterwards and every retry
/// fails with `NotFound` exactly as the first attempt did.
pub proof fn lemma_delete_missing_repeats(before: Store, after: Store, id: u64)
    requires
        !has_id(before.assignments@, id),
        after == before,
    ensures
        !has_id(after.assignments@, id),
{
}

/// Law (expiry boundary): with reference time `now`, a record due
/// strictly before `now` is dead and one due at or after `now` — at
/// `now` exactly included — is live.
pub proof fn lemma_expiry_boundary(h: Homework, now: i64)
    ensures
        h.due_date < now ==> !crate::homework::is_live(h, now),
        h.due_date >= now ==> crate::homework::is_live(h, now),
{
}

/// Law (expiry): the live view holds only live records, and every
/// live record of the original sequence appears in it.
pub proof fn lemma_live_only_exact(s: Seq<Homework>, now: i64)
    ensures
        forall|k: int|
            0 <= k < live_only(s, now).len() ==> crate::homework::is_live(
                #[trigger] live_only(s, now)[k],
                now,
            ),
        forall|i: int|
            0 <= i < s.len() && crate::homework::is_live(s[i], now) ==> live_only(
                s,
                now,
            ).contains(#[trigger] s[i]),
    decreases s.len(),
{
    reveal(Seq::filter);
    if s.len() == 0 {
    } else {
        let rest = s.drop_last();
        assert(forall|i: int| 0 <= i < rest.len() ==> rest[i] == s[i]);
        lemma_live_only_exact(rest, now);
        let out = live_only(s, now);
        let sub = live_only(rest, now);
        assert forall|i: int|
            0 <= i < s.len() && crate::homework::is_live(s[i], now) implies out.contains(
            #[trigger] s[i]) by {
            if i == s.len() - 1 {
                assert(out[out.len() - 1] == s[i]);
            } else {
                assert(rest[i] == s[i]);
                assert(sub.contains(rest[i]));
                let j = choose|j: int| 0 <= j < sub.len() && sub[j] == rest[i];
                assert(out[j] == s[i]);
            }
        }
    }
}

pub struct Store {
    pub assignments: Vec<Homework>,
    pub next_id: u64,
}

impl Store {
    /// The store's invariant, established at construction and preserved
    /// by every operation.
    pub open spec fn wf(self) -> bool {
        &&& self.next_id >= 1
        &&& ids_ok(self.assignments@, self.next_id)
    }

    /// An empty store; the allocator starts at one.
    pub fn new() -> (r: Store)
        ensures
            r.wf(),
            r.assignments@ =~= Seq::<Homework>::empty(),
            r.next_id == 1,
    {
        Store { assignments: Vec::new(), next_id: 1 }
    }

    /// Create a record (no id in the payload) or update one (id given).
    ///
    /// A course code outside the allow-list is refused with
    /// `InvalidInput` and nothing changes. An id that no record carries
    /// is refused with `NotFound` and nothing changes. An update
    /// replaces every field of the matching record with the payload's;
    /// a create appends the payload with the allocator's id and
    /// advances the allocator, so assigned ids strictly increase.
    pub fn create_or_update(&mut self, hw: Homework) -> (r: Result<MutationOutcome, StoreError>)
        requires
            old(self).wf(),
            old(self).next_id < u64::MAX,
        ensures
            final(self).wf(),
            final(self).next_id >= old(self).next_id,
            !valid_course_code(hw.course_code@) ==> r == Err::<MutationOutcome, StoreError>(
                StoreError::InvalidInput,
            ) && *final(self) == *old(self),
            valid_course_code(hw.course_code@) && hw.id is Some && !has_id(
                old(self).assignments@,
                hw.id->Some_0,
            ) ==> r == Err::<MutationOutcome, StoreError>(StoreError::NotFound) && *final(self)
                == *old(self),
            valid_course_code(hw.course_code@) && hw.id is Some && has_id(
                old(self).assignments@,
                hw.id->Some_0,
            ) ==> ({
                &&& r == Ok::<MutationOutcome, StoreError>(MutationOutcome::Updated)
                &&& final(self).next_id == old(self).next_id
                &&& final(self).assignments@.len() == old(self).assignments@.len()
                &&& forall|i: int|
                    0 <= i < old(self).assignments@.len() && (#[trigger] old(
                        self,
                    ).assignments@[i]).id != hw.id ==> final(self).assignments@[i] == old(
                        self,
                    ).assignments@[i]
                &&& forall|i: int|
                    0 <= i < old(self).assignments@.len() && (#[trigger] old(
                        self,
                    ).assignments@[i]).id == hw.id ==> final(self).assignments@[i] == hw
            }),
            valid_course_code(hw.course_code@) && hw.id is None ==> ({
                &&& r == Ok::<MutationOutcome, StoreError>(MutationOutcome::Created)
                &&& final(self).next_id == old(self).next_id + 1
                &&& final(self).assignments@.len() == old(self).assignments@.len() + 1
                &&& final(self).assignments@.subrange(0, old(self).assignments@.len() as int)
                    =~= old(self).assignments@
                &&& final(self).assignments@.last().id == Some(old(self).next_id)
                &&& final(self).assignments@.last().name == hw.name
                &&& final(self).assignments@.last().course_code == hw.course_code
                &&& final(self).assignments@.last().due_date == hw.due_date
            }),
    {
        if !crate::validation::is_valid_course_code(hw.course_code.as_str()) {
            return Err(StoreError::InvalidInput);
        }
        match hw.id {
            Some(id) => {
                let n = self.assignments.len();
                let mut i: usize = 0;
                while i < n
                    invariant
                        n == self.assignments@.len(),
                        i <= n,
                        old(self).wf(),
                        *self == *old(self),
                        valid_course_code(hw.course_code@),
                        hw.id == Some(id),
                        forall|k: int|
                            0 <= k < i ==> (#[trigger] self.assignments@[k]).id != Some(id),
                    decreases n - i,
                {
                    let here = match self.assignments[i].id {
                        Some(x) => x == id,
                        None => false,
                    };
                    if here {
                        self.assignments.set(i, hw);
                        proof {
                            let s_old = old(self).assignments@;
                            let s_new = self.assignments@;
                            assert(s_new =~= s_old.update(i as int, hw));
                            assert(forall|k: int|
                                0 <= k < s_new.len() && k != i ==> s_new[k] == s_old[k]);
                            assert(s_new[i as int] == hw);
                            assert(hw.id == s_old[i as int].id);
                        }
                        return Ok(MutationOutcome::Updated);
                    }
                    i = i + 1;
                }
                Err(StoreError::NotFound)
            },
            None => {
                let id = self.next_id;
                self.next_id = id + 1;
                let mut stored = hw;
                stored.id = Some(id);
                self.assignments.push(stored);
                Ok(MutationOutcome::Created)
            },
        }
    }

    /// Remove the record carrying `id`. If no record carries it, the
    /// operation fails with `NotFound` and nothing changes — retrying
    /// can never succeed, since failure leaves the store as it was.
    pub fn delete(&mut self, id: u64) -> (r: Result<MutationOutcome, StoreError>)
        requires
            old(self).wf(),
        ensures
            final(self).wf(),
            final(self).next_id == old(self).next_id,
            !has_id(old(self).assignments@, id) ==> r == Err::<MutationOutcome, StoreError>(
                StoreError::NotFound,
            ) && *final(self) == *old(self),
            has_id(old(self).assignments@, id) ==> ({
                &&& r == Ok::<MutationOutcome, StoreError>(MutationOutcome::Deleted)
                &&& exists|i: int|
                    0 <= i < old(self).assignments@.len() && (#[trigger] old(
                        self,
                    ).assignments@[i]).id == Some(id) && final(self).assignments@ == old(
                        self,
                    ).assignments@.remove(i)
            }),
    {
        let n = self.assignments.len();
        let mut i: usize = 0;
        while i < n
            invariant
                n == self.assignments@.len(),
                i <= n,
                old(self).wf(),
                *self == *old(self),
                forall|k: int| 0 <= k < i ==> (#[trigger] self.assignments@[k]).id != Some(id),
            decreases n - i,
        {
            let here = match self.assignments[i].id {
                Some(x) => x == id,
                None => false,
            };
            if here {
                self.assignments.remove(i);
                return Ok(MutationOutcome::Deleted);
            }
            i = i + 1;
        }
        Err(StoreError::NotFound)
    }

    /// Handle a delete request as it arrives: the id parameter's text,
    /// if any. A missing or unparseable id is refused with
    /// `InvalidInput`; otherwise the parsed id is deleted as `delete`
    /// says. Nothing changes on any failure.
    pub fn delete_request(&mut self, id_param: Option<&str>) -> (r: Result<
        MutationOutcome,
        StoreError,
    >)
        requires
            old(self).wf(),
        ensures
            final(self).wf(),
            final(self).next_id == old(self).next_id,
            id_param is None ==> r == Err::<MutationOutcome, StoreError>(StoreError::InvalidInput)
                && *final(self) == *old(self),
            id_param matches Some(text) ==> ({
                &&& crate::numbers::parses_as_u64(text@) is None ==> r == Err::<
                    MutationOutcome,
                    StoreError,
                >(StoreError::InvalidInput) && *final(self) == *old(self)
                &&& crate::numbers::parses_as_u64(text@) matches Some(id) ==> ({
                    &&& !has_id(old(self).assignments@, id) ==> r == Err::<
                        MutationOutcome,
                        StoreError,
                    >(StoreError::NotFound) && *final(self) == *old(self)
                    &&& has_id(old(self).assignments@, id) ==> r == Ok::<
                        MutationOutcome,
                        StoreError,
                    >(MutationOutcome::Deleted) && exists|i: int|
                        0 <= i < old(self).assignments@.len() && (#[trigger] old(
                            self,
                        ).assignments@[i]).id == Some(id) && final(self).assignments@ == old(
                            self,
                        ).assignments@.remove(i)
                })
            }),
    {
        match id_param {
            None => Err(StoreError::InvalidInput),
            Some(text) => {
                match crate::numbers::parse_u64(text) {
                    None => Err(StoreError::InvalidInput),
                    Some(id) => self.delete(id),
                }
            },
        }
    }

    /// Drop every record whose due timestamp lies before `now`. This is
    /// the destructive reading of expiry: listing permanently purges
    /// expired records from the collection rather than merely hiding
    /// them from the response.
    pub fn purge_expired(&mut self, now: i64)
        requires
            old(self).wf(),
        ensures
            final(self).wf(),
            final(self).next_id == old(self).next_id,
            final(self).assignments@ == live_only(old(self).assignments@, now),
    {
        let n = self.assignments.len();
        let mut kept: Vec<Homework> = Vec::new();
        let mut i: usize = 0;
        while i < n
            invariant
                n == self.assignments@.len(),
                i <= n,
                old(self).wf(),
                *self == *old(self),
                kept@ == live_only(self.assignments@.subrange(0, i as int), now),
            decreases n - i,
        {
            proof {
                reveal(Seq::filter);
                assert(self.assignments@.subrange(0, i as int + 1).drop_last() =~= self
                    .assignments@
                    .subrange(0, i as int));
                assert(self.assignments@.subrange(0, i as int + 1).last() == self.assignments@[
                    i as int
                ]);
            }
            let keep = self.assignments[i].due_date >= now;
            if keep {
                kept.push(self.assignments[i].duplicate());
            }
            i = i + 1;
        }
        proof {
            assert(self.assignments@.subrange(0, n as int) =~= self.assignments@);
            lemma_live_only_ids_ok(old(self).assignments@, now, old(self).next_id);
        }
        self.assignments = kept;
    }

    /// Purge expired records, then hand back an equal copy of what
    /// remains: exactly the live records, in insertion order.
    pub fn list(&mut self, now: i64) -> (r: Vec<Homework>)
        requires
            old(self).wf(),
        ensures
            final(self).wf(),
            final(self).next_id == old(self).next_id,
            final(self).assignments@ == live_only(old(self).assignments@, now),
            r@ == final(self).assignments@,
    {
        self.purge_expired(now);
        let n = self.assignments.len();
        let mut out: Vec<Homework> = Vec::new();
        let mut i: usize = 0;
        while i < n
            invariant
                n == self.assignments@.len(),
                i <= n,
                self.wf(),
                self.next_id == old(self).next_id,
                self.assignments@ == live_only(old(self).assignments@, now),
                out@ == self.assignments@.subrange(0, i as int),
            decreases n - i,
        {
            out.push(self.assignments[i].duplicate());
            proof {
                assert(self.assignments@.subrange(0, i as int + 1) =~= self
                    .assignments@
                    .subrange(0, i as int)
                    .push(self.assignments@[i as int]));
            }
            i = i + 1;
        }
        proof {
            assert(self.assignments@.subrange(0, n as int) =~= self.assignments@);
        }
        out
    }

    /// Rebuild a store from a persisted snapshot's records. A sound
    /// snapshot is adopted as-is with the allocator seeded at one past
    /// its largest id; anything unsound (a record without an id, a
    /// duplicated id, or an id leaving no room above it) is treated as
    /// malformed content, and the store starts empty with the
    /// allocator at one, as it does when no snapshot exists at all.
    pub fn from_snapshot(records: Vec<Homework>) -> (r: Store)
        ensures
            r.wf(),
            snapshot_ok(records@) ==> r.assignments@ == records@ && r.next_id == max_id(records@)
                + 1,
            !snapshot_ok(records@) ==> r.assignments@ =~= Seq::<Homework>::empty() && r.next_id
                == 1,
    {
        let n = records.len();
        let mut m: u64 = 0;
        let mut i: usize = 0;
        while i < n
            invariant
                n == records@.len(),
                i <= n,
                m < u64::MAX,
                m as nat == max_id(records@.subrange(0, i as int)),
                forall|k: int|
                    0 <= k < i ==> (#[trigger] records@[k]).id is Some && records@[k].id->Some_0
                        < u64::MAX,
            decreases n - i,
        {
            proof {
                assert(records@.subrange(0, i as int + 1).drop_last() =~= records@.subrange(
                    0,
                    i as int,
                ));
                assert(records@.subrange(0, i as int + 1).last() == records@[i as int]);
            }
            match records[i].id {
                Some(x) => {
                    if x >= u64::MAX {
                        return Store::new();
                    }
                    if x > m {
                        m = x;
                    }
                },
                None => {
                    return Store::new();
                },
            }
            i = i + 1;
        }
        proof {
            assert(records@.subrange(0, n as int) =~= records@);
        }
        let mut a: usize = 1;
        while a < n
            invariant
                n == records@.len(),
                a >= 1,
                forall|k: int|
                    0 <= k < n ==> (#[trigger] records@[k]).id is Some && records@[k].id->Some_0
                        < u64::MAX,
                forall|k: int, l: int|
                    0 <= k < l < a && l < n ==> (#[trigger] records@[k]).id != (
                    #[trigger] records@[l]).id,
            decreases n - a,
        {
            let mut b: usize = 0;
            while b < a
                invariant
                    n == records@.len(),
                    a < n,
                    b <= a,
                    forall|k: int|
                        0 <= k < n ==> (#[trigger] records@[k]).id is Some && records@[
                            k
                        ].id->Some_0 < u64::MAX,
                    forall|k: int| 0 <= k < b ==> (#[trigger] records@[k]).id != records@[
                        a as int
                    ].id,
                decreases a - b,
            {
                let same = match (records[b].id, records[a].id) {
                    (Some(x), Some(y)) => x == y,
                    _ => false,
                };
                if same {
                    return Store::new();
                }
                b = b + 1;
            }
            a = a + 1;
        }
        proof {
            lemma_max_id_bounds(records@);
        }
        Store { assignments: records, next_id: m + 1 }
    }
}

} // verus!
