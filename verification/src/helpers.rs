//! Decisions of the helper tasks: when the blockhash poller takes a new
//! blockhash, keeps trying or gives up, and how queued transactions are
//! grouped into batches for the sender.
use crate::chain_data::keys_equal;
use vstd::prelude::*;

verus! {

/// How long, in seconds, one wait for a new blockhash lasts.
pub const BLOCKHASH_WAIT_SECS: u64 = 5;

/// How long, in seconds, the poller goes on without a new blockhash.
pub const BLOCKHASH_STALE_SECS: u64 = 120;

/// A fetched blockhash is taken when the fetch succeeded and the hash
/// differs from the one in use.
pub open spec fn spec_fresh_blockhash(fetched: Option<[u8; 32]>, current: [u8; 32]) -> Option<[u8; 32]> {
    match fetched {
        Some(h) => if h != current {
            Some(h)
        } else {
            None
        },
        None => None,
    }
}

pub fn fresh_blockhash(fetched: Option<[u8; 32]>, current: &[u8; 32]) -> (r: Option<[u8; 32]>)
    ensures
        r == spec_fresh_blockhash(fetched, *current),
{
    match fetched {
        Some(h) => if keys_equal(&h, current) {
            None
        } else {
            Some(h)
        },
        None => None,
    }
}

/// Whole seconds from `since_ms` to `now_ms` (0 when the clock reads
/// earlier).
pub open spec fn whole_secs(since_ms: u64, now_ms: u64) -> u64 {
    if now_ms >= since_ms {
        ((now_ms - since_ms) / 1000) as u64
    } else {
        0
    }
}

/// While waiting for a new blockhash that started at `start_ms`, whether
/// to try again at `now_ms`: fewer than five whole seconds have passed.
pub fn keep_waiting_for_blockhash(start_ms: u64, now_ms: u64) -> (r: bool)
    ensures
        r == (whole_secs(start_ms, now_ms) < BLOCKHASH_WAIT_SECS),
{
    let secs = if now_ms >= start_ms {
        (now_ms - start_ms) / 1000
    } else {
        0
    };
    secs < BLOCKHASH_WAIT_SECS
}

/// The blockhash poller's memory: when it last took a new blockhash.
pub struct BlockhashPoller {
    last_updated_ms: u64,
}

impl BlockhashPoller {
    pub closed spec fn last_updated(&self) -> u64 {
        self.last_updated_ms
    }

    /// A poller that took a blockhash at `now_ms`.
    pub fn new(now_ms: u64) -> (r: Self)
        ensures
            r.last_updated() == now_ms,
    {
        BlockhashPoller { last_updated_ms: now_ms }
    }

    /// After one round's wait for a new blockhash: a new one resets the
    /// clock; without one, polling stops once more than 120 whole seconds
    /// passed since the last new blockhash. Returns whether to go on.
    pub fn after_round(&mut self, got_new_blockhash: bool, now_ms: u64) -> (keep_polling: bool)
        ensures
            got_new_blockhash ==> final(self).last_updated() == now_ms && keep_polling,
            !got_new_blockhash ==> final(self).last_updated() == old(self).last_updated(),
            !got_new_blockhash ==> keep_polling == (whole_secs(old(self).last_updated(), now_ms)
                <= BLOCKHASH_STALE_SECS),
    {
        if got_new_blockhash {
            self.last_updated_ms = now_ms;
            return true;
        }
        let secs = if now_ms >= self.last_updated_ms {
            (now_ms - self.last_updated_ms) / 1000
        } else {
            0
        };
        secs <= BLOCKHASH_STALE_SECS
    }
}

/// Transactions waiting to be sent, grouped into batches of at most
/// `max_batch_size`, in the order they came.
pub struct TransactionBatcher<T> {
    pending: Vec<T>,
    max_batch_size: usize,
    received: Ghost<Seq<T>>,
    handed_out: Ghost<Seq<T>>,
}

impl<T> TransactionBatcher<T> {
    pub closed spec fn pending(&self) -> Seq<T> {
        self.pending@
    }

    pub closed spec fn max(&self) -> usize {
        self.max_batch_size
    }

    /// Every item taken in so far, in order.
    pub closed spec fn received(&self) -> Seq<T> {
        self.received@
    }

    /// Every item handed out in batches so far, in order.
    pub closed spec fn handed_out(&self) -> Seq<T> {
        self.handed_out@
    }

    /// What was handed out, then what is pending, is what came in, in
    /// order; no more than a batch is pending.
    pub open spec fn wf(&self) -> bool {
        &&& self.received() == self.handed_out() + self.pending()
        &&& self.pending().len() <= self.max()
    }

    pub fn new(max_batch_size: usize) -> (r: Self)
        ensures
            r.wf(),
            r.max() == max_batch_size,
            r.pending().len() == 0,
            r.received().len() == 0,
            r.handed_out().len() == 0,
    {
        let r = TransactionBatcher {
            pending: Vec::new(),
            max_batch_size,
            received: Ghost(Seq::empty()),
            handed_out: Ghost(Seq::empty()),
        };
        assert(r.received() =~= r.handed_out() + r.pending());
        r
    }

    /// Whether to wait for another transaction before sending: the pending
    /// batch is not full.
    pub fn wants_more(&self) -> (r: bool)
        ensures
            r == (self.pending().len() < self.max()),
    {
        self.pending.len() < self.max_batch_size
    }

    /// Takes a transaction into the pending batch.
    pub fn push(&mut self, item: T)
        requires
            old(self).wf(),
            old(self).pending().len() < old(self).max(),
        ensures
            final(self).wf(),
            final(self).max() == old(self).max(),
            final(self).pending() == old(self).pending().push(item),
            final(self).received() == old(self).received().push(item),
            final(self).handed_out() == old(self).handed_out(),
    {
        let ghost it = item;
        self.pending.push(item);
        proof {
            self.received@ = self.received@.push(it);
            assert(self.received() =~= self.handed_out() + self.pending());
        }
    }

    /// Hands out the pending transactions as one batch, unless none is
    /// pending.
    pub fn take_batch(&mut self) -> (r: Option<Vec<T>>)
        requires
            old(self).wf(),
        ensures
            final(self).wf(),
            final(self).max() == old(self).max(),
            final(self).received() == old(self).received(),
            old(self).pending().len() == 0 ==> r is None && final(self).pending() == old(self).pending()
                && final(self).handed_out() == old(self).handed_out(),
            old(self).pending().len() > 0 ==> (r matches Some(b) && b@ == old(self).pending()),
            old(self).pending().len() > 0 ==> final(self).pending().len() == 0,
            old(self).pending().len() > 0 ==> (r matches Some(b) && final(self).handed_out() == old(
                self,
            ).handed_out() + b@),
    {
        if self.pending.len() == 0 {
            return None;
        }
        let mut batch: Vec<T> = Vec::new();
        std::mem::swap(&mut batch, &mut self.pending);
        proof {
            self.handed_out@ = self.handed_out@ + batch@;
            assert(self.received() =~= self.handed_out() + self.pending());
        }
        Some(batch)
    }
}

} // verus!
