//! The keeper's update filter: it stores the writes of the accounts that some
//! route watches, follows the slots, and decides which stored writes are
//! handed on to a route's sink. The caller runs the loop: it receives the
//! updates, calls the sinks, and reports back what a sink accepted.
use crate::chain_data::{
    account_update, has_account, root_bump_fits, slot_update, total_bytes, update_walk_terminates,
    writes_of, AccountData, AccountLookupError, ChainData, ChainDataView, Pubkey, SlotData,
};
use crate::feed::{
    is_watched, record_of, spec_should_process, AccountWriteRecord, SlotUpdate,
    WriteThrottle,
};
use vstd::prelude::*;

verus! {

/// The accounts whose writes go to one sink, and how long, in milliseconds,
/// the sink rests between two writes of one account.
#[derive(Clone, Debug)]
pub struct AccountWriteRoute {
    pub matched_pubkeys: Vec<Pubkey>,
    pub timeout_interval_ms: u64,
}

/// The routes as plain values: each route's accounts and its timeout.
pub open spec fn routes_view(routes: Seq<AccountWriteRoute>) -> Seq<(Seq<Pubkey>, u64)> {
    Seq::new(routes.len(), |i: int| (routes[i].matched_pubkeys@, routes[i].timeout_interval_ms))
}

/// Some route watches `k`.
pub open spec fn routes_match(routes: Seq<(Seq<Pubkey>, u64)>, k: Pubkey) -> bool {
    exists|r: int, i: int|
        0 <= r < routes.len() && 0 <= i < routes[r].0.len() && #[trigger] routes[r].0[i] == k
}

/// The most recent live write of `pk`, as `ChainData::account` finds it.
pub open spec fn live_write(v: ChainDataView, pk: Pubkey) -> Option<AccountData> {
    let ws = writes_of(v.accounts, pk);
    if has_account(v.accounts, pk) && v.last_live_index(ws) >= 0 {
        Some(ws[v.last_live_index(ws)])
    } else {
        None
    }
}

/// A write carrying `len` bytes can be stored: the counters of stored
/// versions and bytes stay within `usize`.
pub open spec fn write_fits(v: ChainDataView, len: int) -> bool {
    &&& v.account_versions_stored < usize::MAX
    &&& v.account_bytes_stored + len <= usize::MAX
    &&& total_bytes(v.accounts) + len <= usize::MAX
}

/// The slot record that a slot update is stored as; its chain is found by
/// `ChainData`.
pub open spec fn slot_data_of(u: SlotUpdate) -> SlotData {
    SlotData { slot: u.slot, parent: u.parent, status: u.status, chain: 0 }
}

/// What is delivered to a route with timeout `timeout_ms` for `pk` at
/// `now_ms`: the live write, unless the last one handed on was the same
/// write or was handed on less than the timeout ago.
pub open spec fn spec_delivery(
    chain: ChainDataView,
    records: Seq<(Pubkey, AccountWriteRecord)>,
    pk: Pubkey,
    timeout_ms: u64,
    now_ms: u64,
) -> Option<AccountData> {
    match live_write(chain, pk) {
        Some(w) => if spec_should_process(record_of(records, pk), w, now_ms, timeout_ms) {
            Some(w)
        } else {
            None
        },
        None => None,
    }
}

/// Chain state, delivery records, routes and the set of watched accounts.
pub struct KeeperFilter {
    chain_data: ChainData,
    throttle: WriteThrottle,
    watched: Vec<Pubkey>,
    routes: Vec<AccountWriteRoute>,
}

impl KeeperFilter {
    pub closed spec fn chain(&self) -> ChainDataView {
        self.chain_data@
    }

    pub closed spec fn records(&self) -> Seq<(Pubkey, AccountWriteRecord)> {
        self.throttle.records()
    }

    pub closed spec fn route_list(&self) -> Seq<(Seq<Pubkey>, u64)> {
        routes_view(self.routes@)
    }

    closed spec fn watched_keys(&self) -> Seq<Pubkey> {
        self.watched@
    }

    /// The chain state is well formed, each account has at most one
    /// delivery record, and exactly the routes' accounts are watched.
    pub closed spec fn wf(&self) -> bool {
        &&& self.chain().wf()
        &&& self.throttle.wf()
        &&& forall|k: Pubkey| self.watched_keys().contains(k) <==> routes_match(self.route_list(), k)
    }

    /// A filter for `routes`, with no slot, write or delivery yet.
    pub fn new(routes: Vec<AccountWriteRoute>) -> (r: Self)
        ensures
            r.wf(),
            r.route_list() == routes_view(routes@),
            r.chain().slots == Map::<u64, SlotData>::empty(),
            r.chain().accounts == Seq::<(Pubkey, Seq<AccountData>)>::empty(),
            r.chain().newest_rooted_slot == 0,
            r.chain().newest_processed_slot == 0,
            r.chain().best_chain_slot == 0,
            r.chain().account_versions_stored == 0,
            r.chain().account_bytes_stored == 0,
            r.records().len() == 0,
    {
        let ghost rv = routes_view(routes@);
        let mut watched: Vec<Pubkey> = Vec::new();
        let mut r: usize = 0;
        while r < routes.len()
            invariant
                r <= routes@.len(),
                rv == routes_view(routes@),
                forall|k: Pubkey|
                    watched@.contains(k) <==> exists|a: int, i: int|
                        0 <= a < r && 0 <= i < rv[a].0.len() && #[trigger] rv[a].0[i] == k,
            decreases routes@.len() - r,
        {
            let keys = &routes[r as usize].matched_pubkeys;
            assert(keys@ == rv[r as int].0);
            let mut i: usize = 0;
            while i < keys.len()
                invariant
                    r < routes@.len(),
                    i <= keys@.len(),
                    keys@ == rv[r as int].0,
                    rv == routes_view(routes@),
                    forall|k: Pubkey|
                        watched@.contains(k) <==> (exists|a: int, j: int|
                            0 <= a < r && 0 <= j < rv[a].0.len() && #[trigger] rv[a].0[j] == k)
                            || (exists|j: int| 0 <= j < i && keys@[j] == k),
                decreases keys@.len() - i,
            {
                let ghost before = watched@;
                watched.push(keys[i]);
                proof {
                    assert forall|k: Pubkey|
                        watched@.contains(k) <==> (exists|a: int, j: int|
                            0 <= a < r && 0 <= j < rv[a].0.len() && #[trigger] rv[a].0[j] == k)
                            || (exists|j: int| 0 <= j < i + 1 && keys@[j] == k) by {
                        if watched@.contains(k) {
                            let p = choose|p: int| 0 <= p < watched@.len() && watched@[p] == k;
                            if p < before.len() {
                                assert(before[p] == k);
                                assert(before.contains(k));
                            } else {
                                assert(keys@[i as int] == k);
                            }
                        }
                        if exists|j: int| 0 <= j < i + 1 && keys@[j] == k {
                            let j = choose|j: int| 0 <= j < i + 1 && keys@[j] == k;
                            if j == i {
                                assert(watched@[before.len() as int] == k);
                            } else {
                                assert(before.contains(k));
                                let p = choose|p: int| 0 <= p < before.len() && before[p] == k;
                                assert(watched@[p] == k);
                            }
                        }
                        if exists|a: int, j: int|
                            0 <= a < r && 0 <= j < rv[a].0.len() && #[trigger] rv[a].0[j] == k {
                            assert(before.contains(k));
                            let p = choose|p: int| 0 <= p < before.len() && before[p] == k;
                            assert(watched@[p] == k);
                        }
                    }
                }
                i = i + 1;
            }
            proof {
                assert forall|k: Pubkey|
                    watched@.contains(k) <==> exists|a: int, j: int|
                        0 <= a < r + 1 && 0 <= j < rv[a].0.len() && #[trigger] rv[a].0[j] == k by {
                    if exists|j: int| 0 <= j < i && keys@[j] == k {
                        let j = choose|j: int| 0 <= j < i && keys@[j] == k;
                        assert(rv[r as int].0[j] == k);
                    }
                    if exists|a: int, j: int|
                        0 <= a < r + 1 && 0 <= j < rv[a].0.len() && #[trigger] rv[a].0[j] == k {
                        let (a, j) = choose|a: int, j: int|
                            0 <= a < r + 1 && 0 <= j < rv[a].0.len() && #[trigger] rv[a].0[j] == k;
                        if a == r {
                            assert(keys@[j] == k);
                        }
                    }
                }
            }
            r = r + 1;
        }
        KeeperFilter { chain_data: ChainData::new(), throttle: WriteThrottle::new(), watched, routes }
    }

    /// Whether `on_account_write(pubkey, account)` may be called: the
    /// account is not watched, or the write fits.
    pub fn accepts(&self, pubkey: &Pubkey, account: &AccountData) -> (r: bool)
        requires
            self.wf(),
        ensures
            r == (routes_match(self.route_list(), *pubkey) ==> write_fits(
                self.chain(),
                account.account.data@.len() as int,
            )),
    {
        if !is_watched(&self.watched, pubkey) {
            return true;
        }
        self.chain_data.can_store_write(account.account.data.len())
    }

    /// Takes an account write: stored when a route watches the account,
    /// skipped otherwise. Returns whether it was stored.
    pub fn on_account_write(&mut self, pubkey: Pubkey, account: AccountData) -> (stored: bool)
        requires
            old(self).wf(),
            routes_match(old(self).route_list(), pubkey) ==> write_fits(
                old(self).chain(),
                account.account.data@.len() as int,
            ),
        ensures
            final(self).wf(),
            stored == routes_match(old(self).route_list(), pubkey),
            final(self).chain() == if stored {
                account_update(old(self).chain(), pubkey, account)
            } else {
                old(self).chain()
            },
            final(self).records() == old(self).records(),
            final(self).route_list() == old(self).route_list(),
    {
        if !is_watched(&self.watched, &pubkey) {
            return false;
        }
        self.chain_data.update_account(pubkey, account);
        true
    }

    /// Whether `on_slot_update(update)` may be called (see
    /// `ChainData::can_update_slot`).
    pub fn can_take_slot_update(&self, update: &SlotUpdate) -> (r: bool)
        requires
            self.wf(),
        ensures
            r == (update_walk_terminates(self.chain(), slot_data_of(*update)) && root_bump_fits(
                self.chain(),
                slot_data_of(*update),
            )),
    {
        let s = SlotData { slot: update.slot, parent: update.parent, status: update.status, chain: 0 };
        self.chain_data.can_update_slot(&s)
    }

    /// Takes a slot update.
    pub fn on_slot_update(&mut self, update: SlotUpdate)
        requires
            old(self).wf(),
            update_walk_terminates(old(self).chain(), slot_data_of(update)),
            root_bump_fits(old(self).chain(), slot_data_of(update)),
        ensures
            final(self).wf(),
            final(self).chain() == slot_update(old(self).chain(), slot_data_of(update)),
            final(self).records() == old(self).records(),
            final(self).route_list() == old(self).route_list(),
    {
        let s = SlotData { slot: update.slot, parent: update.parent, status: update.status, chain: 0 };
        self.chain_data.update_slot(s);
        assert(self.watched_keys() == old(self).watched_keys());
        assert(self.route_list() == old(self).route_list());
    }

    pub fn route_count(&self) -> (r: usize)
        ensures
            r == self.route_list().len(),
    {
        self.routes.len()
    }

    /// The accounts that route `route` watches.
    pub fn route_pubkeys(&self, route: usize) -> (r: &Vec<Pubkey>)
        requires
            route < self.route_list().len(),
        ensures
            r@ == self.route_list()[route as int].0,
    {
        &self.routes[route].matched_pubkeys
    }

    /// The write of `pubkey` to hand on to route `route` at `now_ms`, if
    /// any (see `spec_delivery`).
    pub fn delivery(&self, route: usize, pubkey: &Pubkey, now_ms: u64) -> (r: Option<&AccountData>)
        requires
            self.wf(),
            route < self.route_list().len(),
        ensures
            match spec_delivery(
                self.chain(),
                self.records(),
                *pubkey,
                self.route_list()[route as int].1,
                now_ms,
            ) {
                Some(w) => r matches Some(x) && *x == w,
                None => r is None,
            },
    {
        match self.chain_data.account(pubkey) {
            Err(AccountLookupError::NotFound) => None,
            Err(AccountLookupError::NoLiveData) => None,
            Ok(w) => {
                let timeout = self.routes[route].timeout_interval_ms;
                if self.throttle.should_process(pubkey, w, now_ms, timeout) {
                    Some(w)
                } else {
                    None
                }
            },
        }
    }

    /// Notes that a sink accepted the write of `pubkey` at `slot` and
    /// `write_version`, at `now_ms`.
    pub fn record_delivered(&mut self, pubkey: &Pubkey, slot: u64, write_version: u64, now_ms: u64)
        requires
            old(self).wf(),
        ensures
            final(self).wf(),
            record_of(final(self).records(), *pubkey) == Some(
                AccountWriteRecord { slot, write_version, timestamp_ms: now_ms },
            ),
            forall|k: Pubkey|
                k != *pubkey ==> #[trigger] record_of(final(self).records(), k) == record_of(
                    old(self).records(),
                    k,
                ),
            final(self).chain() == old(self).chain(),
            final(self).route_list() == old(self).route_list(),
    {
        self.throttle.record_processed(pubkey, slot, write_version, now_ms);
        assert(self.watched_keys() == old(self).watched_keys());
        assert(self.route_list() == old(self).route_list());
    }
}

/// Once a sink has accepted the live write of an account, that write is not
/// delivered again to any route, however much later, while it stays the
/// live write.
pub proof fn law_accepted_write_not_redelivered(
    chain: ChainDataView,
    records: Seq<(Pubkey, AccountWriteRecord)>,
    pk: Pubkey,
    accepted_ms: u64,
    timeout_ms: u64,
    now_ms: u64,
)
    requires
        live_write(chain, pk) is Some,
        record_of(records, pk) == Some(
            AccountWriteRecord {
                slot: live_write(chain, pk)->0.slot,
                write_version: live_write(chain, pk)->0.write_version,
                timestamp_ms: accepted_ms,
            },
        ),
    ensures
        spec_delivery(chain, records, pk, timeout_ms, now_ms) is None,
{
}

} // verus!
