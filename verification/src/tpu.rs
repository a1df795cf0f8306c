//! Decisions of the TPU sender: how a sent batch is counted, and when the
//! TPU client is rebuilt after failed sends.
use crate::states::TransactionSendRecord;
use crate::stats::{NACounters, OpenbookV2SimulationStats, wrap_inc};
use vstd::prelude::*;

verus! {

/// `x + 1`, wrapping to 0 past `u32::MAX`, as an atomic `fetch_add(1)` does.
pub open spec fn wrap_inc32(x: u32) -> u32 {
    if x == u32::MAX {
        0
    } else {
        (x + 1) as u32
    }
}

/// Failed sends counted since the TPU client was last built.
pub struct TpuErrorCounter {
    error_count: u32,
}

impl TpuErrorCounter {
    pub closed spec fn count(&self) -> u32 {
        self.error_count
    }

    /// No failed send counted.
    pub fn new() -> (r: Self)
        ensures
            r.count() == 0,
    {
        TpuErrorCounter { error_count: 0 }
    }

    pub fn error_count(&self) -> (r: u32)
        ensures
            r == self.count(),
    {
        self.error_count
    }

    /// Counts a failed send and says whether the client is now due to be
    /// rebuilt: when more than five failed sends are counted.
    pub fn record_error(&mut self) -> (reset_due: bool)
        ensures
            final(self).count() == wrap_inc32(old(self).count()),
            reset_due == (final(self).count() > 5),
    {
        if self.error_count == u32::MAX {
            self.error_count = 0;
        } else {
            self.error_count = self.error_count + 1;
        }
        self.error_count > 5
    }

    /// The client was rebuilt: counting starts again.
    pub fn record_reset(&mut self)
        ensures
            final(self).count() == 0,
    {
        self.error_count = 0;
    }

    /// What follows a batch send: nothing when it went through; otherwise
    /// the failure is counted, and the result says whether the client is
    /// due to be rebuilt.
    pub fn after_batch(&mut self, sent: bool) -> (reset_due: bool)
        ensures
            sent ==> final(self).count() == old(self).count() && !reset_due,
            !sent ==> final(self).count() == wrap_inc32(old(self).count()),
            !sent ==> reset_due == (final(self).count() > 5),
    {
        if sent {
            false
        } else {
            self.record_error()
        }
    }
}

/// A failed send makes the client due to be rebuilt exactly when at least
/// five failed sends were already counted (short of the counter wrapping):
/// from a fresh count, the sixth consecutive failure triggers it.
pub proof fn law_rebuild_on_sixth_failure(count: u32)
    ensures
        (wrap_inc32(count) > 5) <==> (5 <= count < u32::MAX),
{
}

/// Number of keeper (consume-events) transactions among `records`.
pub open spec fn consume_count(records: Seq<TransactionSendRecord>) -> nat
    decreases records.len(),
{
    if records.len() == 0 {
        0
    } else {
        consume_count(records.drop_last()) + if records.last().is_consume_event {
            1nat
        } else {
            0nat
        }
    }
}

pub open spec fn wrap_add(x: u64, k: nat) -> u64 {
    ((x + k) % 0x1_0000_0000_0000_0000) as u64
}

/// `n` is `o` with every record of `records` counted as sent, the counters
/// wrapping as atomic counters do.
pub open spec fn batch_counted(o: NACounters, n: NACounters, records: Seq<TransactionSendRecord>) -> bool {
    let consume = consume_count(records);
    &&& n.num_sent == wrap_add(o.num_sent, records.len())
    &&& n.num_consume_events_txs == wrap_add(o.num_consume_events_txs, consume)
    &&& n.num_users_txs == wrap_add(o.num_users_txs, (records.len() - consume) as nat)
    &&& n.num_confirmed_txs == o.num_confirmed_txs
    &&& n.num_error_txs == o.num_error_txs
    &&& n.num_timeout_txs == o.num_timeout_txs
    &&& n.num_successful == o.num_successful
    &&& n.succ_users_txs == o.succ_users_txs
    &&& n.succ_consume_events_txs == o.succ_consume_events_txs
    &&& n.errors@ == o.errors@
}

proof fn lemma_consume_count_bound(records: Seq<TransactionSendRecord>)
    ensures
        consume_count(records) <= records.len(),
    decreases records.len(),
{
    if records.len() > 0 {
        lemma_consume_count_bound(records.drop_last());
    }
}

proof fn lemma_wrap_add_step(x: u64, k: nat)
    ensures
        wrap_inc(wrap_add(x, k)) == wrap_add(x, k + 1),
{
    let m: int = 0x1_0000_0000_0000_0000;
    vstd::arithmetic::div_mod::lemma_add_mod_noop(x + k, 1, m);
    vstd::arithmetic::div_mod::lemma_mod_bound(x + k, m);
    vstd::arithmetic::div_mod::lemma_small_mod(1nat, m as nat);
    let y = (x + k) % m;
    if y == m - 1 {
        assert((y + 1) % m == 0) by {
            vstd::arithmetic::div_mod::lemma_mod_self_0(m);
        }
    } else {
        vstd::arithmetic::div_mod::lemma_small_mod((y + 1) as nat, m as nat);
    }
}

proof fn lemma_wrap_add_zero(x: u64)
    ensures
        wrap_add(x, 0) == x,
{
    vstd::arithmetic::div_mod::lemma_small_mod(x as nat, 0x1_0000_0000_0000_0000nat);
}

/// Counts every record of a sent batch, in order: keeper transactions as
/// consume events, the others as user transactions.
pub fn count_sent_batch(stats: &mut OpenbookV2SimulationStats, records: &Vec<TransactionSendRecord>)
    requires
        old(stats).wf(),
    ensures
        final(stats).wf(),
        final(stats).spec_recv_limit() == old(stats).spec_recv_limit(),
        final(stats).previous() == old(stats).previous(),
        batch_counted(old(stats).current(), final(stats).current(), records@),
{
    let ghost o = stats.current();
    let mut i: usize = 0;
    proof {
        assert(records@.take(0) =~= Seq::<TransactionSendRecord>::empty());
        lemma_wrap_add_zero(o.num_sent);
        lemma_wrap_add_zero(o.num_consume_events_txs);
        lemma_wrap_add_zero(o.num_users_txs);
    }
    while i < records.len()
        invariant
            i <= records@.len(),
            stats.wf(),
            stats.spec_recv_limit() == old(stats).spec_recv_limit(),
            stats.previous() == old(stats).previous(),
            o == old(stats).current(),
            batch_counted(o, stats.current(), records@.take(i as int)),
        decreases records@.len() - i,
    {
        let ghost before = stats.current();
        let ghost t = records@.take(i as int);
        let ghost t1 = records@.take(i + 1);
        proof {
            assert(t1.drop_last() =~= t);
            assert(t1.last() == records@[i as int]);
            lemma_consume_count_bound(t);
        }
        stats.inc_send(records[i].is_consume_event);
        proof {
            let c = consume_count(t);
            lemma_wrap_add_step(o.num_sent, t.len());
            if records@[i as int].is_consume_event {
                lemma_wrap_add_step(o.num_consume_events_txs, c);
                assert(consume_count(t1) == c + 1);
                assert(t1.len() - consume_count(t1) == t.len() - c);
            } else {
                lemma_wrap_add_step(o.num_users_txs, (t.len() - c) as nat);
                assert(consume_count(t1) == c);
                assert(t1.len() - consume_count(t1) == (t.len() - c) + 1);
            }
        }
        i = i + 1;
    }
    assert(records@.take(records@.len() as int) =~= records@);
}

} // verus!
