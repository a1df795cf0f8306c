//! Counters of the simulation: transactions sent, confirmed, failed and timed
//! out, per kind, with the errors seen and how often; reports with the change
//! since the previous report.
use crate::states::TransactionConfirmRecord;
use vstd::prelude::*;

verus! {

/// How often one error message was seen.
#[derive(Clone, Debug)]
pub struct ErrorCount {
    pub error: String,
    pub count: u64,
}

/// A plain snapshot of the simulation counters.
#[derive(Clone, Debug)]
pub struct NACounters {
    pub num_confirmed_txs: u64,
    pub num_error_txs: u64,
    pub num_timeout_txs: u64,
    pub num_successful: u64,
    pub num_sent: u64,
    // sent transactions
    pub num_users_txs: u64,
    pub num_consume_events_txs: u64,
    // successful transactions
    pub succ_users_txs: u64,
    pub succ_consume_events_txs: u64,
    /// Each error message at most once, with its count.
    pub errors: Vec<ErrorCount>,
}

/// No error message occurs twice.
pub open spec fn distinct_errors(errs: Seq<ErrorCount>) -> bool {
    forall|i: int, j: int|
        0 <= i < errs.len() && 0 <= j < errs.len() && i != j ==> errs[i].error@ != errs[j].error@
}

pub open spec fn has_error(errs: Seq<ErrorCount>, e: Seq<char>) -> bool {
    exists|i: int| 0 <= i < errs.len() && errs[i].error@ == e
}

/// The count recorded for message `e`; 0 where there is none.
pub open spec fn error_count(errs: Seq<ErrorCount>, e: Seq<char>) -> u64 {
    if has_error(errs, e) {
        errs[choose|i: int| 0 <= i < errs.len() && errs[i].error@ == e].count
    } else {
        0
    }
}

proof fn lemma_error_count(errs: Seq<ErrorCount>, i: int)
    requires
        distinct_errors(errs),
        0 <= i < errs.len(),
    ensures
        has_error(errs, errs[i].error@),
        error_count(errs, errs[i].error@) == errs[i].count,
{
    let e = errs[i].error@;
    assert(0 <= i < errs.len() && errs[i].error@ == e);
    let c = choose|j: int| 0 <= j < errs.len() && errs[j].error@ == e;
    assert(c == i);
}

/// The scalar counters of `a` and `b` are equal.
pub open spec fn same_scalars(a: NACounters, b: NACounters) -> bool {
    &&& a.num_confirmed_txs == b.num_confirmed_txs
    &&& a.num_error_txs == b.num_error_txs
    &&& a.num_timeout_txs == b.num_timeout_txs
    &&& a.num_successful == b.num_successful
    &&& a.num_sent == b.num_sent
    &&& a.num_users_txs == b.num_users_txs
    &&& a.num_consume_events_txs == b.num_consume_events_txs
    &&& a.succ_users_txs == b.succ_users_txs
    &&& a.succ_consume_events_txs == b.succ_consume_events_txs
}

/// No counter of `other` is above the same counter of `c`, and no error count
/// of `other` is above the count of the same message in `c`.
pub open spec fn dominates(c: NACounters, other: NACounters) -> bool {
    &&& other.num_confirmed_txs <= c.num_confirmed_txs
    &&& other.num_error_txs <= c.num_error_txs
    &&& other.num_timeout_txs <= c.num_timeout_txs
    &&& other.num_successful <= c.num_successful
    &&& other.num_sent <= c.num_sent
    &&& other.num_users_txs <= c.num_users_txs
    &&& other.num_consume_events_txs <= c.num_consume_events_txs
    &&& other.succ_users_txs <= c.succ_users_txs
    &&& other.succ_consume_events_txs <= c.succ_consume_events_txs
    &&& forall|i: int|
        0 <= i < c.errors@.len() && has_error(other.errors@, (#[trigger] c.errors@[i]).error@)
            ==> error_count(other.errors@, c.errors@[i].error@) <= c.errors@[i].count
}

/// The error entries of `c` with the counts of `other` taken off; a message
/// that `other` does not have keeps its count, and a message that only
/// `other` has is left out.
pub open spec fn errors_diff(c: Seq<ErrorCount>, other: Seq<ErrorCount>) -> Seq<(Seq<char>, u64)> {
    Seq::new(
        c.len(),
        |i: int|
            (
                c[i].error@,
                if has_error(other, c[i].error@) {
                    (c[i].count - error_count(other, c[i].error@)) as u64
                } else {
                    c[i].count
                },
            ),
    )
}

pub open spec fn errors_view(errs: Seq<ErrorCount>) -> Seq<(Seq<char>, u64)> {
    Seq::new(errs.len(), |i: int| (errs[i].error@, errs[i].count))
}

impl NACounters {
    /// All counters at zero, no errors.
    pub fn zero() -> (r: Self)
        ensures
            r.num_confirmed_txs == 0 && r.num_error_txs == 0 && r.num_timeout_txs == 0
                && r.num_successful == 0 && r.num_sent == 0 && r.num_users_txs == 0
                && r.num_consume_events_txs == 0 && r.succ_users_txs == 0
                && r.succ_consume_events_txs == 0,
            r.errors@.len() == 0,
    {
        NACounters {
            num_confirmed_txs: 0,
            num_error_txs: 0,
            num_timeout_txs: 0,
            num_successful: 0,
            num_sent: 0,
            num_users_txs: 0,
            num_consume_events_txs: 0,
            succ_users_txs: 0,
            succ_consume_events_txs: 0,
            errors: Vec::new(),
        }
    }

    /// The count of message `error`, if it was seen.
    pub fn error_count(&self, error: &String) -> (r: Option<u64>)
        requires
            distinct_errors(self.errors@),
        ensures
            r == (if has_error(self.errors@, error@) {
                Some(error_count(self.errors@, error@))
            } else {
                None
            }),
    {
        match self.find_error(error) {
            Some(i) => {
                proof {
                    lemma_error_count(self.errors@, i as int);
                }
                Some(self.errors[i].count)
            },
            None => None,
        }
    }

    fn find_error(&self, error: &String) -> (r: Option<usize>)
        ensures
            match r {
                Some(i) => i < self.errors@.len() && self.errors@[i as int].error@ == error@,
                None => !has_error(self.errors@, error@),
            },
    {
        let mut i: usize = 0;
        while i < self.errors.len()
            invariant
                i <= self.errors@.len(),
                forall|j: int| 0 <= j < i ==> self.errors@[j].error@ != error@,
            decreases self.errors@.len() - i,
        {
            if self.errors[i].error == *error {
                return Some(i);
            }
            i = i + 1;
        }
        None
    }

    /// A copy of these counters.
    pub fn snapshot(&self) -> (r: Self)
        ensures
            same_scalars(r, *self),
            errors_view(r.errors@) == errors_view(self.errors@),
            distinct_errors(self.errors@) ==> distinct_errors(r.errors@),
    {
        let mut errors: Vec<ErrorCount> = Vec::new();
        let mut i: usize = 0;
        while i < self.errors.len()
            invariant
                i <= self.errors@.len(),
                errors@.len() == i,
                forall|j: int| 0 <= j < i ==> (#[trigger] errors@[j]).error@ == self.errors@[j].error@
                    && errors@[j].count == self.errors@[j].count,
            decreases self.errors@.len() - i,
        {
            errors.push(ErrorCount { error: self.errors[i].error.clone(), count: self.errors[i].count });
            i = i + 1;
        }
        let r = NACounters {
            num_confirmed_txs: self.num_confirmed_txs,
            num_error_txs: self.num_error_txs,
            num_timeout_txs: self.num_timeout_txs,
            num_successful: self.num_successful,
            num_sent: self.num_sent,
            num_users_txs: self.num_users_txs,
            num_consume_events_txs: self.num_consume_events_txs,
            succ_users_txs: self.succ_users_txs,
            succ_consume_events_txs: self.succ_consume_events_txs,
            errors,
        };
        assert(errors_view(r.errors@) =~= errors_view(self.errors@));
        r
    }

    /// The change from `other` to `self`: each counter minus the same counter
    /// of `other`, and each error count of `self` minus the count of the same
    /// message in `other` where it has one.
    pub fn diff(&self, other: &NACounters) -> (r: NACounters)
        requires
            distinct_errors(self.errors@),
            distinct_errors(other.errors@),
            dominates(*self, *other),
        ensures
            r.num_confirmed_txs == self.num_confirmed_txs - other.num_confirmed_txs,
            r.num_error_txs == self.num_error_txs - other.num_error_txs,
            r.num_timeout_txs == self.num_timeout_txs - other.num_timeout_txs,
            r.num_successful == self.num_successful - other.num_successful,
            r.num_sent == self.num_sent - other.num_sent,
            r.num_users_txs == self.num_users_txs - other.num_users_txs,
            r.num_consume_events_txs == self.num_consume_events_txs - other.num_consume_events_txs,
            r.succ_users_txs == self.succ_users_txs - other.succ_users_txs,
            r.succ_consume_events_txs == self.succ_consume_events_txs
                - other.succ_consume_events_txs,
            errors_view(r.errors@) == errors_diff(self.errors@, other.errors@),
            distinct_errors(r.errors@),
    {
        let mut new_error_count: Vec<ErrorCount> = Vec::new();
        let mut i: usize = 0;
        while i < self.errors.len()
            invariant
                i <= self.errors@.len(),
                new_error_count@.len() == i,
                distinct_errors(self.errors@),
                distinct_errors(other.errors@),
                dominates(*self, *other),
                forall|j: int|
                    0 <= j < i ==> errors_view(new_error_count@)[j] == #[trigger] errors_diff(
                        self.errors@,
                        other.errors@,
                    )[j],
            decreases self.errors@.len() - i,
        {
            let error = &self.errors[i].error;
            let count = self.errors[i].count;
            let entry = match other.error_count(error) {
                Some(v) => ErrorCount { error: error.clone(), count: count - v },
                None => ErrorCount { error: error.clone(), count },
            };
            let ghost before = new_error_count@;
            new_error_count.push(entry);
            proof {
                assert forall|j: int| 0 <= j < i + 1 implies errors_view(new_error_count@)[j]
                    == #[trigger] errors_diff(self.errors@, other.errors@)[j] by {
                    if j < i {
                        assert(errors_view(new_error_count@)[j] == errors_view(before)[j]);
                    }
                }
            }
            i = i + 1;
        }
        proof {
            assert(errors_view(new_error_count@) =~= errors_diff(self.errors@, other.errors@));
            assert forall|x: int, y: int|
                0 <= x < new_error_count@.len() && 0 <= y < new_error_count@.len() && x != y implies new_error_count@[x].error@
                != new_error_count@[y].error@ by {
                assert(errors_view(new_error_count@)[x].0 == self.errors@[x].error@);
                assert(errors_view(new_error_count@)[y].0 == self.errors@[y].error@);
            }
        }
        NACounters {
            num_confirmed_txs: self.num_confirmed_txs - other.num_confirmed_txs,
            num_error_txs: self.num_error_txs - other.num_error_txs,
            num_timeout_txs: self.num_timeout_txs - other.num_timeout_txs,
            num_successful: self.num_successful - other.num_successful,
            num_sent: self.num_sent - other.num_sent,
            num_users_txs: self.num_users_txs - other.num_users_txs,
            num_consume_events_txs: self.num_consume_events_txs - other.num_consume_events_txs,
            succ_users_txs: self.succ_users_txs - other.succ_users_txs,
            succ_consume_events_txs: self.succ_consume_events_txs - other.succ_consume_events_txs,
            errors: new_error_count,
        }
    }
}

/// `x + 1`, wrapping to 0 past `u64::MAX`, as an atomic `fetch_add(1)` does.
pub open spec fn wrap_inc(x: u64) -> u64 {
    if x == u64::MAX {
        0
    } else {
        (x + 1) as u64
    }
}

pub fn wrapping_inc(x: u64) -> (r: u64)
    ensures
        r == wrap_inc(x),
{
    if x == u64::MAX {
        0
    } else {
        x + 1
    }
}

/// The error entries after one more occurrence of message `e`: its count
/// goes up by one, or it is added with count 1.
pub open spec fn errors_after(errs: Seq<ErrorCount>, e: Seq<char>) -> Seq<(Seq<char>, u64)> {
    if has_error(errs, e) {
        let i = choose|i: int| 0 <= i < errs.len() && errs[i].error@ == e;
        errors_view(errs).update(i, (e, (errs[i].count + 1) as u64))
    } else {
        errors_view(errs).push((e, 1u64))
    }
}

/// `n` is `o` with one more sent transaction counted, of a keeper
/// (`is_consume_event`) or of a user.
pub open spec fn sent_counted(o: NACounters, n: NACounters, is_consume_event: bool) -> bool {
    &&& n.num_sent == wrap_inc(o.num_sent)
    &&& n.num_consume_events_txs == if is_consume_event {
        wrap_inc(o.num_consume_events_txs)
    } else {
        o.num_consume_events_txs
    }
    &&& n.num_users_txs == if is_consume_event {
        o.num_users_txs
    } else {
        wrap_inc(o.num_users_txs)
    }
    &&& n.num_confirmed_txs == o.num_confirmed_txs
    &&& n.num_error_txs == o.num_error_txs
    &&& n.num_timeout_txs == o.num_timeout_txs
    &&& n.num_successful == o.num_successful
    &&& n.succ_users_txs == o.succ_users_txs
    &&& n.succ_consume_events_txs == o.succ_consume_events_txs
    &&& n.errors@ == o.errors@
}

/// `n` is `o` with one confirmation outcome counted: confirmed with `error`,
/// confirmed without error, or (`!confirmed`) timed out.
pub open spec fn confirmation_counted(
    o: NACounters,
    n: NACounters,
    confirmed: bool,
    error: Option<Seq<char>>,
    is_consume_event: bool,
) -> bool {
    &&& distinct_errors(n.errors@)
    &&& n.num_sent == o.num_sent
    &&& n.num_users_txs == o.num_users_txs
    &&& n.num_consume_events_txs == o.num_consume_events_txs
    &&& n.num_confirmed_txs == if confirmed {
        wrap_inc(o.num_confirmed_txs)
    } else {
        o.num_confirmed_txs
    }
    &&& n.num_timeout_txs == if confirmed {
        o.num_timeout_txs
    } else {
        wrap_inc(o.num_timeout_txs)
    }
    &&& n.num_error_txs == if confirmed && error is Some {
        wrap_inc(o.num_error_txs)
    } else {
        o.num_error_txs
    }
    &&& n.num_successful == if confirmed && error is None {
        wrap_inc(o.num_successful)
    } else {
        o.num_successful
    }
    &&& n.succ_consume_events_txs == if confirmed && error is None && is_consume_event {
        wrap_inc(o.succ_consume_events_txs)
    } else {
        o.succ_consume_events_txs
    }
    &&& n.succ_users_txs == if confirmed && error is None && !is_consume_event {
        wrap_inc(o.succ_users_txs)
    } else {
        o.succ_users_txs
    }
    &&& errors_view(n.errors@) == if confirmed && error is Some {
        errors_after(o.errors@, error->0)
    } else {
        errors_view(o.errors@)
    }
}

impl NACounters {
    /// Counts one more sent transaction, of a keeper (`is_consume_event`)
    /// or of a user.
    pub fn inc_send(&mut self, is_consume_event: bool)
        ensures
            sent_counted(*old(self), *final(self), is_consume_event),
    {
        self.num_sent = wrapping_inc(self.num_sent);
        if is_consume_event {
            self.num_consume_events_txs = wrapping_inc(self.num_consume_events_txs);
        } else {
            self.num_users_txs = wrapping_inc(self.num_users_txs);
        }
    }

    /// Counts one confirmation outcome: a transaction confirmed with the
    /// (already normalized) `error`, confirmed without error, or not
    /// confirmed (timed out).
    pub fn record_confirmation(&mut self, confirmed: bool, error: Option<String>, is_consume_event: bool)
        requires
            distinct_errors(old(self).errors@),
            confirmed && error is Some ==> error_count(old(self).errors@, error->0@) < u64::MAX,
        ensures
            distinct_errors(final(self).errors@),
            confirmation_counted(
                *old(self),
                *final(self),
                confirmed,
                match error {
                    Some(e) => Some(e@),
                    None => None,
                },
                is_consume_event,
            ),
    {
        if confirmed {
            self.num_confirmed_txs = wrapping_inc(self.num_confirmed_txs);
            match error {
                Some(error) => {
                    self.num_error_txs = wrapping_inc(self.num_error_txs);
                    self.add_error(error);
                },
                None => {
                    self.num_successful = wrapping_inc(self.num_successful);
                    if is_consume_event {
                        self.succ_consume_events_txs = wrapping_inc(self.succ_consume_events_txs);
                    } else {
                        self.succ_users_txs = wrapping_inc(self.succ_users_txs);
                    }
                },
            }
        } else {
            self.num_timeout_txs = wrapping_inc(self.num_timeout_txs);
        }
    }

    fn add_error(&mut self, error: String)
        requires
            distinct_errors(old(self).errors@),
            error_count(old(self).errors@, error@) < u64::MAX,
        ensures
            distinct_errors(final(self).errors@),
            errors_view(final(self).errors@) == errors_after(old(self).errors@, error@),
            same_scalars(*final(self), *old(self)),
    {
        let ghost old_errs = self.errors@;
        match self.find_error(&error) {
            Some(i) => {
                proof {
                    lemma_error_count(old_errs, i as int);
                }
                let mut entry = self.errors.remove(i);
                entry.count = entry.count + 1;
                self.errors.insert(i, entry);
                proof {
                    let c = choose|j: int| 0 <= j < old_errs.len() && old_errs[j].error@ == error@;
                    assert(c == i);
                    assert(self.errors@ =~= old_errs.update(i as int, entry));
                    assert(errors_view(self.errors@) =~= errors_view(old_errs).update(
                        i as int,
                        (error@, (old_errs[i as int].count + 1) as u64),
                    ));
                    assert forall|x: int, y: int|
                        0 <= x < self.errors@.len() && 0 <= y < self.errors@.len() && x != y implies self.errors@[x].error@
                        != self.errors@[y].error@ by {
                        assert(self.errors@[x].error@ == old_errs[x].error@);
                        assert(self.errors@[y].error@ == old_errs[y].error@);
                    }
                }
            },
            None => {
                let ghost e = error@;
                self.errors.push(ErrorCount { error, count: 1 });
                proof {
                    assert(errors_view(self.errors@) =~= errors_view(old_errs).push((e, 1u64)));
                    assert forall|x: int, y: int|
                        0 <= x < self.errors@.len() && 0 <= y < self.errors@.len() && x != y implies self.errors@[x].error@
                        != self.errors@[y].error@ by {
                        if x < old_errs.len() && y < old_errs.len() {
                            assert(self.errors@[x] == old_errs[x]);
                            assert(self.errors@[y] == old_errs[y]);
                        } else if x < old_errs.len() {
                            assert(self.errors@[x] == old_errs[x]);
                        } else {
                            assert(self.errors@[y] == old_errs[y]);
                        }
                    }
                }
            },
        }
    }
}

/// `top` holds `min(k, |errs|)` entries of `errs`, most frequent first, and
/// no entry of `errs` left out is more frequent than any entry of `top`
/// (which of equally frequent entries are taken is left open).
pub open spec fn is_top_errors(errs: Seq<(Seq<char>, u64)>, top: Seq<(Seq<char>, u64)>, k: nat) -> bool {
    &&& top.len() == if k < errs.len() {
        k
    } else {
        errs.len()
    }
    &&& forall|i: int, j: int| 0 <= i < j < top.len() ==> top[i].1 >= top[j].1
    &&& exists|rest: Seq<(Seq<char>, u64)>|
        {
            &&& (top + rest).to_multiset() == errs.to_multiset()
            &&& forall|i: int, j: int|
                0 <= i < top.len() && 0 <= j < rest.len() ==> rest[j].1 <= top[i].1
        }
}

/// The `k` most frequent errors of `errs`, most frequent first.
pub fn top_errors(errs: &Vec<ErrorCount>, k: usize) -> (r: Vec<ErrorCount>)
    ensures
        is_top_errors(errors_view(errs@), errors_view(r@), k as nat),
{
    broadcast use vstd::seq_lib::group_to_multiset_ensures;

    let ghost e = errors_view(errs@);
    let mut rest: Vec<ErrorCount> = Vec::new();
    let mut i: usize = 0;
    while i < errs.len()
        invariant
            i <= errs@.len(),
            e == errors_view(errs@),
            errors_view(rest@) == e.take(i as int),
            rest@.len() == i,
            e.len() == errs@.len(),
        decreases errs@.len() - i,
    {
        let ghost before = rest@;
        rest.push(ErrorCount { error: errs[i].error.clone(), count: errs[i].count });
        proof {
            assert(rest@[i as int].error@ == errs@[i as int].error@);
            assert forall|t: int| 0 <= t < i + 1 implies errors_view(rest@)[t] == e.take(i + 1)[t] by {
                if t < i {
                    assert(rest@[t] == before[t]);
                    assert(errors_view(before)[t] == e.take(i as int)[t]);
                }
            }
            assert(errors_view(rest@) =~= e.take(i + 1));
        }
        i = i + 1;
    }
    assert(e.take(errs@.len() as int) =~= e);
    let mut top: Vec<ErrorCount> = Vec::new();
    proof {
        assert(errors_view(top@) + errors_view(rest@) =~= e);
    }
    while top.len() < k && rest.len() > 0
        invariant
            errors_view(top@).len() + errors_view(rest@).len() == e.len(),
            top@.len() <= k,
            (errors_view(top@) + errors_view(rest@)).to_multiset() == e.to_multiset(),
            forall|a: int, b: int| 0 <= a < b < top@.len() ==> top@[a].count >= top@[b].count,
            forall|a: int, b: int|
                0 <= a < top@.len() && 0 <= b < rest@.len() ==> rest@[b].count <= top@[a].count,
        decreases rest@.len(),
    {
        let mut best: usize = 0;
        let mut j: usize = 1;
        while j < rest.len()
            invariant
                1 <= j <= rest@.len(),
                best < rest@.len(),
                forall|t: int| 0 <= t < j ==> rest@[t].count <= rest@[best as int].count,
            decreases rest@.len() - j,
        {
            if rest[j].count > rest[best].count {
                best = j;
            }
            j = j + 1;
        }
        let ghost t0 = errors_view(top@);
        let ghost s0 = errors_view(rest@);
        let ghost rest0 = rest@;
        let ghost top0 = top@;
        let x = rest.remove(best);
        top.push(x);
        proof {
            let t1 = errors_view(top@);
            let s1 = errors_view(rest@);
            assert(t1 =~= t0.push(s0[best as int]));
            assert(s1 =~= s0.remove(best as int));
            vstd::seq_lib::lemma_multiset_commutative(t0, s0);
            vstd::seq_lib::to_multiset_build(t0, s0[best as int]);
            vstd::seq_lib::to_multiset_remove(s0, best as int);
            vstd::seq_lib::lemma_multiset_commutative(t1, s1);
            assert(t1.to_multiset() =~= t0.to_multiset().insert(s0[best as int]));
            assert(s1.to_multiset() =~= s0.to_multiset().remove(s0[best as int]));
            vstd::seq_lib::to_multiset_contains(s0, s0[best as int]);
            assert(s0.contains(s0[best as int]));
            assert((t1 + s1).to_multiset() =~= (t0 + s0).to_multiset());
            assert forall|a: int, b: int|
                0 <= a < top@.len() && 0 <= b < rest@.len() implies rest@[b].count
                <= top@[a].count by {
                let bb = if b < best { b } else { b + 1 };
                assert(rest@[b] == rest0[bb]);
                if a < top0.len() {
                    assert(top@[a] == top0[a]);
                }
            }
            assert forall|a: int, b: int| 0 <= a < b < top@.len() implies top@[a].count
                >= top@[b].count by {
                if b < top0.len() {
                    assert(top@[a] == top0[a] && top@[b] == top0[b]);
                } else {
                    assert(top@[b] == rest0[best as int]);
                    assert(top@[a] == top0[a]);
                }
            }
        }
    }
    proof {
        let tv = errors_view(top@);
        let rv = errors_view(rest@);
        assert forall|a: int, b: int| 0 <= a < tv.len() && 0 <= b < rv.len() implies rv[b].1
            <= tv[a].1 by {
            assert(tv[a].1 == top@[a].count && rv[b].1 == rest@[b].count);
        }
        assert forall|a: int, b: int| 0 <= a < b < tv.len() implies tv[a].1 >= tv[b].1 by {
            assert(tv[a].1 == top@[a].count && tv[b].1 == top@[b].count);
        }
    }
    top
}

#[verifier::external_type_specification]
#[verifier::external_body]
pub struct ExRegex(regex::Regex);

/// Whether `regex::Regex::new` accepts `pattern`.
pub uninterp spec fn regex_compiles(pattern: Seq<char>) -> bool;

/// What `regex::Regex::replace_all` gives for the regex compiled from
/// `pattern`, on `haystack`, with `replacement`.
pub uninterp spec fn regex_replace_all(
    pattern: Seq<char>,
    haystack: Seq<char>,
    replacement: Seq<char>,
) -> Seq<char>;

/// Strips the "Error processing Instruction <n>: " prefixes from error
/// messages, so that one error seen in different instructions is counted
/// once.
pub struct ErrorNormalizer {
    pattern: String,
    regex: regex::Regex,
}

/// `regex::Regex::new`: compiles `pattern`. Claimed: a regex comes back
/// exactly when the pattern compiles, which depends on the pattern alone.
#[verifier::external_body]
fn compile_regex(pattern: &str) -> (r: Option<regex::Regex>)
    ensures
        r is Some == regex_compiles(pattern@),
{
    regex::Regex::new(pattern).ok()
}

/// `regex::Regex::replace_all` on the normalizer's regex. Claimed: the
/// result is a function of the pattern the regex was compiled from (the
/// normalizer's `pattern`, set together with it in `ErrorNormalizer::new`),
/// the haystack and the replacement.
#[verifier::external_body]
fn replace_all_matches(n: &ErrorNormalizer, haystack: &str, replacement: &str) -> (r: String)
    ensures
        r@ == regex_replace_all(n.pattern@, haystack@, replacement@),
{
    n.regex.replace_all(haystack, replacement).into_owned()
}

/// The pattern of the prefixes that `ErrorNormalizer` strips.
pub open spec fn instruction_error_pattern() -> Seq<char> {
    "Error processing Instruction \\d+: "@
}

impl ErrorNormalizer {
    pub closed spec fn pattern_view(&self) -> Seq<char> {
        self.pattern@
    }

    /// A normalizer for the instruction-error prefix; `None` if its pattern
    /// does not compile.
    pub fn new() -> (r: Option<ErrorNormalizer>)
        ensures
            r is Some == regex_compiles(instruction_error_pattern()),
            r matches Some(n) ==> n.pattern_view() == instruction_error_pattern(),
    {
        let pattern = "Error processing Instruction \\d+: ".to_owned();
        match compile_regex(pattern.as_str()) {
            Some(regex) => Some(ErrorNormalizer { pattern, regex }),
            None => None,
        }
    }

    /// `error` with every match of the pattern removed.
    pub fn normalize(&self, error: &str) -> (r: String)
        ensures
            r@ == regex_replace_all(self.pattern_view(), error@, Seq::empty()),
    {
        let empty = "";
        proof {
            reveal_strlit("");
        }
        assert(empty@ =~= Seq::<char>::empty());
        replace_all_matches(self, error, empty)
    }
}

/// Percentage of `part` in `total`, rounded down; 0 when `total` is 0.
pub open spec fn percent(part: u64, total: u64) -> u64 {
    if total == 0 {
        0
    } else {
        ((part * 100) / (total as int)) as u64
    }
}

pub fn percent_of(part: u64, total: u64) -> (r: u64)
    requires
        part * 100 <= u64::MAX,
    ensures
        r == percent(part, total),
{
    let scaled = part * 100;
    match scaled.checked_div(total) {
        Some(v) => v,
        None => 0,
    }
}

/// The counters that a report shows: the current ones, with the timed-out
/// count taken as everything sent and not confirmed in a final report.
pub open spec fn reported_counters(c: NACounters, is_final: bool) -> NACounters {
    if is_final {
        NACounters { num_timeout_txs: (c.num_sent - c.num_confirmed_txs) as u64, ..c }
    } else {
        c
    }
}

/// What a report shows.
#[derive(Debug)]
pub struct StatsReport {
    /// How many market-making transactions were expected.
    pub recv_limit: usize,
    pub counters: NACounters,
    /// Change since the previous report.
    pub diff: NACounters,
    pub confirmed_percent: u64,
    pub successful_percent: u64,
    pub timeout_percent: u64,
    /// The five most frequent errors, most frequent first.
    pub top_errors: Vec<ErrorCount>,
}

/// The counters of a simulation run, and those of the last report.
#[derive(Debug)]
pub struct OpenbookV2SimulationStats {
    recv_limit: usize,
    counters: NACounters,
    previous_counters: NACounters,
}

impl OpenbookV2SimulationStats {
    pub closed spec fn spec_recv_limit(&self) -> usize {
        self.recv_limit
    }

    pub closed spec fn current(&self) -> NACounters {
        self.counters
    }

    pub closed spec fn previous(&self) -> NACounters {
        self.previous_counters
    }

    pub open spec fn wf(&self) -> bool {
        distinct_errors(self.current().errors@) && distinct_errors(self.previous().errors@)
    }

    /// `report` may run: in a final report nothing more is confirmed than
    /// sent, no reported counter is below the previous report's, and the
    /// percentages can be computed.
    pub open spec fn report_allowed(&self, is_final: bool) -> bool {
        let c = self.current();
        &&& is_final ==> c.num_confirmed_txs <= c.num_sent
        &&& dominates(reported_counters(c, is_final), self.previous())
        &&& c.num_confirmed_txs * 100 <= u64::MAX
        &&& c.num_successful * 100 <= u64::MAX
        &&& reported_counters(c, is_final).num_timeout_txs * 100 <= u64::MAX
    }

    /// Stats expecting `nb_users * quotes_per_second * duration_in_sec`
    /// market-making transactions, all counters at zero.
    pub fn new(nb_users: usize, quotes_per_second: usize, duration_in_sec: usize) -> (r: Self)
        requires
            nb_users * quotes_per_second <= usize::MAX,
            nb_users * quotes_per_second * duration_in_sec <= usize::MAX,
        ensures
            r.wf(),
            r.spec_recv_limit() == nb_users * quotes_per_second * duration_in_sec,
            same_scalars(r.current(), r.previous()),
            r.current().num_sent == 0 && r.current().num_confirmed_txs == 0
                && r.current().num_error_txs == 0 && r.current().num_timeout_txs == 0
                && r.current().num_successful == 0 && r.current().num_users_txs == 0
                && r.current().num_consume_events_txs == 0 && r.current().succ_users_txs == 0
                && r.current().succ_consume_events_txs == 0,
            r.current().errors@.len() == 0,
            r.previous().errors@.len() == 0,
    {
        OpenbookV2SimulationStats {
            recv_limit: nb_users * quotes_per_second * duration_in_sec,
            counters: NACounters::zero(),
            previous_counters: NACounters::zero(),
        }
    }

    pub fn recv_limit(&self) -> (r: usize)
        ensures
            r == self.spec_recv_limit(),
    {
        self.recv_limit
    }

    pub fn counters(&self) -> (r: &NACounters)
        ensures
            *r == self.current(),
    {
        &self.counters
    }

    /// Counts a sent transaction.
    pub fn inc_send(&mut self, is_consume_event: bool)
        requires
            old(self).wf(),
        ensures
            final(self).wf(),
            final(self).spec_recv_limit() == old(self).spec_recv_limit(),
            final(self).previous() == old(self).previous(),
            sent_counted(old(self).current(), final(self).current(), is_consume_event),
    {
        self.counters.inc_send(is_consume_event);
    }

    /// Counts one confirmation record: confirmed or timed out, and when
    /// confirmed, failed with its error (normalized by `normalizer`) or
    /// successful. When that error's count is already `u64::MAX` nothing is
    /// counted and `false` comes back.
    pub fn update_from_tx_status(
        &mut self,
        record: &TransactionConfirmRecord,
        normalizer: &ErrorNormalizer,
    ) -> (counted: bool)
        requires
            old(self).wf(),
        ensures
            final(self).wf(),
            final(self).spec_recv_limit() == old(self).spec_recv_limit(),
            final(self).previous() == old(self).previous(),
            ({
                let confirmed = record.confirmed_at is Some;
                let error = match record.error {
                    Some(e) => Some(regex_replace_all(normalizer.pattern_view(), e@, Seq::empty())),
                    None => None::<Seq<char>>,
                };
                let o = old(self).current();
                let n = final(self).current();
                &&& counted == !(confirmed && error is Some && error_count(o.errors@, error->0)
                    == u64::MAX)
                &&& !counted ==> n == o
                &&& counted ==> confirmation_counted(o, n, confirmed, error, record.is_consume_event)
            }),
    {
        let confirmed = record.confirmed_at.is_some();
        let error = if confirmed {
            match &record.error {
                Some(e) => Some(normalizer.normalize(e.as_str())),
                None => None,
            }
        } else {
            None
        };
        if let Some(e) = &error {
            if let Some(count) = self.counters.error_count(e) {
                if count == u64::MAX {
                    return false;
                }
            }
        }
        self.counters.record_confirmation(confirmed, error, record.is_consume_event);
        true
    }

    /// Whether `report(is_final)` may run; see `report_allowed`.
    pub fn can_report(&self, is_final: bool) -> (r: bool)
        requires
            self.wf(),
        ensures
            r == self.report_allowed(is_final),
    {
        let c = &self.counters;
        let p = &self.previous_counters;
        if is_final && c.num_confirmed_txs > c.num_sent {
            return false;
        }
        let timeout = if is_final {
            c.num_sent - c.num_confirmed_txs
        } else {
            c.num_timeout_txs
        };
        if c.num_confirmed_txs > u64::MAX / 100 || c.num_successful > u64::MAX / 100 || timeout
            > u64::MAX / 100 {
            return false;
        }
        if p.num_confirmed_txs > c.num_confirmed_txs || p.num_error_txs > c.num_error_txs
            || p.num_timeout_txs > timeout || p.num_successful > c.num_successful || p.num_sent
            > c.num_sent || p.num_users_txs > c.num_users_txs || p.num_consume_events_txs
            > c.num_consume_events_txs || p.succ_users_txs > c.succ_users_txs
            || p.succ_consume_events_txs > c.succ_consume_events_txs {
            return false;
        }
        let mut i: usize = 0;
        while i < c.errors.len()
            invariant
                c == self.current(),
                p == self.previous(),
                self.wf(),
                i <= c.errors@.len(),
                forall|j: int|
                    0 <= j < i && has_error(p.errors@, (#[trigger] c.errors@[j]).error@)
                        ==> error_count(p.errors@, c.errors@[j].error@) <= c.errors@[j].count,
            decreases c.errors@.len() - i,
        {
            if let Some(v) = p.error_count(&c.errors[i].error) {
                if v > c.errors[i].count {
                    proof {
                        let rc = reported_counters(self.current(), is_final);
                        assert(rc.errors@[i as int] == c.errors@[i as int]);
                        assert(!dominates(rc, self.previous()));
                    }
                    return false;
                }
            }
            i = i + 1;
        }
        true
    }

    /// The report: the counters (in a final report, with every sent and
    /// unconfirmed transaction counted as timed out), their change since the
    /// previous report, which they then become, the confirmed, successful
    /// and timed-out percentages of the sent transactions, and the five most
    /// frequent errors.
    pub fn report(&mut self, is_final: bool) -> (r: StatsReport)
        requires
            old(self).wf(),
            old(self).report_allowed(is_final),
        ensures
            final(self).wf(),
            final(self).spec_recv_limit() == old(self).spec_recv_limit(),
            final(self).current() == old(self).current(),
            ({
                let c = reported_counters(old(self).current(), is_final);
                &&& r.recv_limit == old(self).spec_recv_limit()
                &&& same_scalars(r.counters, c)
                &&& errors_view(r.counters.errors@) == errors_view(c.errors@)
                &&& same_scalars(final(self).previous(), c)
                &&& errors_view(final(self).previous().errors@) == errors_view(c.errors@)
                &&& r.diff.num_confirmed_txs == c.num_confirmed_txs - old(self).previous().num_confirmed_txs
                &&& r.diff.num_error_txs == c.num_error_txs - old(self).previous().num_error_txs
                &&& r.diff.num_timeout_txs == c.num_timeout_txs - old(self).previous().num_timeout_txs
                &&& r.diff.num_successful == c.num_successful - old(self).previous().num_successful
                &&& r.diff.num_sent == c.num_sent - old(self).previous().num_sent
                &&& r.diff.num_users_txs == c.num_users_txs - old(self).previous().num_users_txs
                &&& r.diff.num_consume_events_txs == c.num_consume_events_txs - old(
                    self,
                ).previous().num_consume_events_txs
                &&& r.diff.succ_users_txs == c.succ_users_txs - old(self).previous().succ_users_txs
                &&& r.diff.succ_consume_events_txs == c.succ_consume_events_txs - old(
                    self,
                ).previous().succ_consume_events_txs
                &&& errors_view(r.diff.errors@) == errors_diff(c.errors@, old(self).previous().errors@)
                &&& r.confirmed_percent == percent(c.num_confirmed_txs, c.num_sent)
                &&& r.successful_percent == percent(c.num_successful, c.num_sent)
                &&& r.timeout_percent == percent(c.num_timeout_txs, c.num_sent)
                &&& is_top_errors(errors_view(c.errors@), errors_view(r.top_errors@), 5)
            }),
    {
        let mut counters = self.counters.snapshot();
        if is_final {
            counters.num_timeout_txs = counters.num_sent - counters.num_confirmed_txs;
        }
        proof {
            let c = reported_counters(self.current(), is_final);
            assert(errors_view(counters.errors@) == errors_view(c.errors@));
            assert(errors_view(counters.errors@).len() == counters.errors@.len());
            assert(errors_view(c.errors@).len() == c.errors@.len());
            assert(counters.errors@.len() == c.errors@.len());
            assert forall|i: int|
                0 <= i < counters.errors@.len() && has_error(
                    self.previous().errors@,
                    (#[trigger] counters.errors@[i]).error@,
                ) implies error_count(self.previous().errors@, counters.errors@[i].error@)
                <= counters.errors@[i].count by {
                assert(errors_view(counters.errors@)[i] == errors_view(c.errors@)[i]);
                assert(c.errors@[i].error@ == counters.errors@[i].error@);
                assert(c.errors@[i].count == counters.errors@[i].count);
                assert(has_error(self.previous().errors@, c.errors@[i].error@));
            }
            assert(errors_diff(counters.errors@, self.previous().errors@) =~= errors_diff(c.errors@, self.previous().errors@)) by {
                assert forall|i: int| 0 <= i < c.errors@.len() implies c.errors@[i].error@ == counters.errors@[i].error@
                    && c.errors@[i].count == counters.errors@[i].count by {
                    assert(errors_view(counters.errors@)[i] == errors_view(c.errors@)[i]);
                }
            }
        }
        let diff = counters.diff(&self.previous_counters);
        self.previous_counters = counters.snapshot();
        let confirmed_percent = percent_of(counters.num_confirmed_txs, counters.num_sent);
        let successful_percent = percent_of(counters.num_successful, counters.num_sent);
        let timeout_percent = percent_of(counters.num_timeout_txs, counters.num_sent);
        let top = top_errors(&counters.errors, 5);
        StatsReport {
            recv_limit: self.recv_limit,
            counters,
            diff,
            confirmed_percent,
            successful_percent,
            timeout_percent,
            top_errors: top,
        }
    }
}

/// Every sent transaction is a user's or a keeper's, every confirmed one
/// failed or succeeded, and every successful one is a user's or a keeper's.
pub open spec fn counters_consistent(c: NACounters) -> bool {
    &&& c.num_sent == c.num_users_txs + c.num_consume_events_txs
    &&& c.num_confirmed_txs == c.num_error_txs + c.num_successful
    &&& c.num_successful == c.succ_users_txs + c.succ_consume_events_txs
}

/// Counting a sent transaction keeps the counters consistent, as long as the
/// sent count does not wrap.
pub proof fn law_send_keeps_counters_consistent(o: NACounters, n: NACounters, is_consume_event: bool)
    requires
        counters_consistent(o),
        o.num_sent < u64::MAX,
        sent_counted(o, n, is_consume_event),
    ensures
        counters_consistent(n),
{
}

/// Counting a confirmation outcome keeps the counters consistent, as long as
/// the confirmed count does not wrap.
pub proof fn law_confirmation_keeps_counters_consistent(
    o: NACounters,
    n: NACounters,
    confirmed: bool,
    error: Option<Seq<char>>,
    is_consume_event: bool,
)
    requires
        counters_consistent(o),
        o.num_confirmed_txs < u64::MAX,
        confirmation_counted(o, n, confirmed, error, is_consume_event),
    ensures
        counters_consistent(n),
{
}

/// The change from a snapshot to itself is zero everywhere, error counts
/// included.
pub proof fn law_diff_with_itself_is_zero(c: NACounters)
    requires
        distinct_errors(c.errors@),
    ensures
        forall|i: int| 0 <= i < c.errors@.len() ==> (#[trigger] errors_diff(c.errors@, c.errors@)[i]).1 == 0,
        errors_diff(c.errors@, c.errors@).len() == c.errors@.len(),
{
    assert forall|i: int| 0 <= i < c.errors@.len() implies (#[trigger] errors_diff(
        c.errors@,
        c.errors@,
    )[i]).1 == 0 by {
        lemma_error_count(c.errors@, i);
    }
}

/// The change between two snapshots, added to the earlier one, gives the
/// later one: for each counter, and for each error count.
pub proof fn law_diff_adds_up(c: NACounters, p: NACounters)
    requires
        distinct_errors(c.errors@),
        distinct_errors(p.errors@),
        dominates(c, p),
    ensures
        forall|i: int|
            0 <= i < c.errors@.len() ==> (#[trigger] errors_diff(c.errors@, p.errors@)[i]).1 + error_count(
                p.errors@,
                c.errors@[i].error@,
            ) == c.errors@[i].count,
{
    assert forall|i: int| 0 <= i < c.errors@.len() implies (#[trigger] errors_diff(
        c.errors@,
        p.errors@,
    )[i]).1 + error_count(p.errors@, c.errors@[i].error@) == c.errors@[i].count by {
        assert(has_error(p.errors@, c.errors@[i].error@) || error_count(p.errors@, c.errors@[i].error@) == 0);
    }
}

/// What a report shows of the sent, confirmed and timed-out counts, given
/// the current counters `c`: the sent and confirmed counts as they are; in
/// a final report every sent transaction not confirmed counts as timed
/// out, whatever timeouts were counted before, so confirmed and timed out
/// add up to sent and the timed-out percentage is at most 100; in another
/// report the timed-out count as it is.
pub proof fn law_report_timeouts(c: NACounters, is_final: bool, shown: NACounters, timeout_percent: u64)
    requires
        is_final ==> c.num_confirmed_txs <= c.num_sent,
        same_scalars(shown, reported_counters(c, is_final)),
        timeout_percent == percent(shown.num_timeout_txs, shown.num_sent),
    ensures
        shown.num_sent == c.num_sent,
        shown.num_confirmed_txs == c.num_confirmed_txs,
        is_final ==> shown.num_confirmed_txs + shown.num_timeout_txs == c.num_sent,
        is_final ==> timeout_percent <= 100,
        is_final && c.num_sent > 0 ==> timeout_percent == ((c.num_sent - c.num_confirmed_txs) * 100)
            / (c.num_sent as int),
        is_final && c.num_sent == 0 ==> timeout_percent == 0,
        !is_final ==> shown.num_timeout_txs == c.num_timeout_txs,
{
    if is_final {
        assert(shown.num_timeout_txs <= shown.num_sent);
        law_percent_at_most_100(shown.num_timeout_txs, shown.num_sent);
        if c.num_sent > 0 {
            let t = shown.num_timeout_txs;
            let n = c.num_sent;
            assert(0 <= (t * 100) / (n as int) <= 100) by (nonlinear_arith)
                requires
                    t <= n,
                    n > 0,
            ;
            assert(t == c.num_sent - c.num_confirmed_txs);
        }
    }
}

/// A part of a total is at most 100 percent of it.
pub proof fn law_percent_at_most_100(part: u64, total: u64)
    requires
        part <= total,
    ensures
        percent(part, total) <= 100,
{
    if total > 0 {
        assert((part * 100) / (total as int) <= 100) by (nonlinear_arith)
            requires
                part <= total,
                total > 0,
        ;
    }
}

/// Over three snapshots `a`, `b`, `c`, each at least the one before, the
/// change from `a` to `c` is the change from `b` to `c` plus the change from
/// `a` to `b`: for each counter, and for each error count of `c` (a message
/// that a snapshot lacks counts 0 there).
pub proof fn law_diffs_chain(a: NACounters, b: NACounters, c: NACounters)
    requires
        distinct_errors(a.errors@),
        distinct_errors(b.errors@),
        distinct_errors(c.errors@),
        dominates(b, a),
        dominates(c, b),
        forall|e: Seq<char>| has_error(a.errors@, e) ==> has_error(b.errors@, e),
    ensures
        c.num_confirmed_txs - a.num_confirmed_txs == (c.num_confirmed_txs - b.num_confirmed_txs) + (
        b.num_confirmed_txs - a.num_confirmed_txs),
        c.num_error_txs - a.num_error_txs == (c.num_error_txs - b.num_error_txs) + (b.num_error_txs
            - a.num_error_txs),
        c.num_timeout_txs - a.num_timeout_txs == (c.num_timeout_txs - b.num_timeout_txs) + (
        b.num_timeout_txs - a.num_timeout_txs),
        c.num_successful - a.num_successful == (c.num_successful - b.num_successful) + (
        b.num_successful - a.num_successful),
        c.num_sent - a.num_sent == (c.num_sent - b.num_sent) + (b.num_sent - a.num_sent),
        c.num_users_txs - a.num_users_txs == (c.num_users_txs - b.num_users_txs) + (b.num_users_txs
            - a.num_users_txs),
        c.num_consume_events_txs - a.num_consume_events_txs == (c.num_consume_events_txs
            - b.num_consume_events_txs) + (b.num_consume_events_txs - a.num_consume_events_txs),
        c.succ_users_txs - a.succ_users_txs == (c.succ_users_txs - b.succ_users_txs) + (
        b.succ_users_txs - a.succ_users_txs),
        c.succ_consume_events_txs - a.succ_consume_events_txs == (c.succ_consume_events_txs
            - b.succ_consume_events_txs) + (b.succ_consume_events_txs - a.succ_consume_events_txs),
        forall|i: int|
            0 <= i < c.errors@.len() ==> (#[trigger] errors_diff(c.errors@, a.errors@)[i]).1
                == errors_diff(c.errors@, b.errors@)[i].1 + (error_count(
                b.errors@,
                c.errors@[i].error@,
            ) - error_count(a.errors@, c.errors@[i].error@)),
{
    assert forall|i: int| 0 <= i < c.errors@.len() implies (#[trigger] errors_diff(
        c.errors@,
        a.errors@,
    )[i]).1 == errors_diff(c.errors@, b.errors@)[i].1 + (error_count(b.errors@, c.errors@[i].error@)
        - error_count(a.errors@, c.errors@[i].error@)) by {
        let e = c.errors@[i].error@;
        if has_error(b.errors@, e) {
            let j = choose|j: int| 0 <= j < b.errors@.len() && b.errors@[j].error@ == e;
            lemma_error_count(b.errors@, j);
            assert(error_count(b.errors@, e) <= c.errors@[i].count);
            if has_error(a.errors@, e) {
                assert(error_count(a.errors@, b.errors@[j].error@) <= b.errors@[j].count);
            }
        }
    }
}

/// The sum of the counts of `v`.
pub open spec fn errors_total(v: Seq<(Seq<char>, u64)>) -> int
    decreases v.len(),
{
    if v.len() == 0 {
        0
    } else {
        errors_total(v.drop_last()) + v.last().1
    }
}

proof fn lemma_errors_total_update(v: Seq<(Seq<char>, u64)>, i: int, x: (Seq<char>, u64))
    requires
        0 <= i < v.len(),
    ensures
        errors_total(v.update(i, x)) + v[i].1 == errors_total(v) + x.1,
        v[i].1 <= errors_total(v),
    decreases v.len(),
{
    let n = v.update(i, x);
    lemma_errors_total_nonneg(v.drop_last());
    if i == v.len() - 1 {
        assert(n.drop_last() =~= v.drop_last());
    } else {
        lemma_errors_total_update(v.drop_last(), i, x);
        assert(n.drop_last() =~= v.drop_last().update(i, x));
    }
}

proof fn lemma_errors_total_nonneg(v: Seq<(Seq<char>, u64)>)
    ensures
        errors_total(v) >= 0,
    decreases v.len(),
{
    if v.len() > 0 {
        lemma_errors_total_nonneg(v.drop_last());
    }
}

/// The counts of the error messages add up to the number of failed
/// transactions: all counters start at zero with no message, and counting
/// a sent transaction or a confirmation keeps it so, as long as the failed
/// count does not wrap.
pub proof fn law_error_counts_add_up(
    o: NACounters,
    n: NACounters,
    confirmed: bool,
    error: Option<Seq<char>>,
    is_consume_event: bool,
)
    requires
        distinct_errors(o.errors@),
        errors_total(errors_view(o.errors@)) == o.num_error_txs,
        o.num_error_txs < u64::MAX,
    ensures
        confirmation_counted(o, n, confirmed, error, is_consume_event) ==> errors_total(
            errors_view(n.errors@),
        ) == n.num_error_txs,
        sent_counted(o, n, is_consume_event) ==> errors_total(errors_view(n.errors@))
            == n.num_error_txs,
        errors_total(errors_view(Seq::<ErrorCount>::empty())) == 0,
{
    assert(errors_view(Seq::<ErrorCount>::empty()) =~= Seq::<(Seq<char>, u64)>::empty());
    if sent_counted(o, n, is_consume_event) {
        assert(errors_view(n.errors@) =~= errors_view(o.errors@));
    }
    if confirmation_counted(o, n, confirmed, error, is_consume_event) {
        if confirmed && error is Some {
            let e = error->0;
            let v = errors_view(o.errors@);
            if has_error(o.errors@, e) {
                let i = choose|i: int| 0 <= i < o.errors@.len() && o.errors@[i].error@ == e;
                lemma_errors_total_update(v, i, (e, (o.errors@[i].count + 1) as u64));
                assert(v[i].1 == o.errors@[i].count);
            } else {
                assert(v.push((e, 1u64)).drop_last() =~= v);
            }
        }
    }
}

} // verus!
