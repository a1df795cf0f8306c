//! Tracking of slots and account writes as they arrive from an RPC node.
//!
//! `ChainData` keeps, for each account, the writes that may still matter and,
//! for each slot, its parent, its commitment status and the tip of the chain it
//! belongs to. `account` answers with the most recent write that is live, i.e.
//! rooted or on the best known chain.
use std::collections::HashMap;
use vstd::std_specs::iter::IteratorSpec;
use vstd::prelude::*;

verus! {

/// A 32-byte account address.
pub type Pubkey = [u8; 32];

/// Commitment status of a slot, from weakest to strongest.
#[derive(Clone, Copy, Debug, PartialEq, Eq, Structural)]
pub enum SlotStatus {
    Processed,
    Confirmed,
    Finalized,
}

/// Strength of a status: `Processed` < `Confirmed` < `Finalized`.
pub open spec fn status_rank(s: SlotStatus) -> int {
    match s {
        SlotStatus::Processed => 0,
        SlotStatus::Confirmed => 1,
        SlotStatus::Finalized => 2,
    }
}

pub fn is_finalized(s: SlotStatus) -> (r: bool)
    ensures
        r == (s == SlotStatus::Finalized),
{
    match s {
        SlotStatus::Finalized => true,
        _ => false,
    }
}

pub fn is_processed(s: SlotStatus) -> (r: bool)
    ensures
        r == (s == SlotStatus::Processed),
{
    match s {
        SlotStatus::Processed => true,
        _ => false,
    }
}

/// What is known of one slot.
#[derive(Clone, Copy, Debug)]
pub struct SlotData {
    pub slot: u64,
    pub parent: Option<u64>,
    pub status: SlotStatus,
    /// The top slot of the chain that this slot is on; uncles have values below the tip.
    pub chain: u64,
}

/// The contents of an account as of one write.
#[derive(Clone, Debug)]
pub struct AccountState {
    pub lamports: u64,
    pub data: Vec<u8>,
    pub owner: Pubkey,
    pub executable: bool,
    pub rent_epoch: u64,
}

/// One write to an account, at a slot and with a write version.
#[derive(Clone, Debug)]
pub struct AccountData {
    pub slot: u64,
    pub write_version: u64,
    pub account: AccountState,
}

/// Why `ChainData::account` found nothing.
#[derive(Clone, Copy, Debug, PartialEq, Eq, Structural)]
pub enum AccountLookupError {
    /// No write to the account was ever stored.
    NotFound,
    /// Writes are stored, but none of them is live.
    NoLiveData,
}

/// The writes kept for one account, ordered by slot.
struct AccountWrites {
    pubkey: Pubkey,
    writes: Vec<AccountData>,
}

/// Abstract state of a `ChainData`.
pub struct ChainDataView {
    pub slots: Map<u64, SlotData>,
    pub accounts: Seq<(Pubkey, Seq<AccountData>)>,
    pub newest_rooted_slot: u64,
    pub newest_processed_slot: u64,
    pub best_chain_slot: u64,
    pub account_versions_stored: usize,
    pub account_bytes_stored: usize,
}

/// Slots and account writes, as seen from an RPC node's update streams.
pub struct ChainData {
    slots: HashMap<u64, SlotData>,
    accounts: Vec<AccountWrites>,
    newest_rooted_slot: u64,
    newest_processed_slot: u64,
    best_chain_slot: u64,
    account_versions_stored: usize,
    account_bytes_stored: usize,
}

spec fn entries_view(e: Seq<AccountWrites>) -> Seq<(Pubkey, Seq<AccountData>)> {
    Seq::new(e.len(), |i: int| (e[i].pubkey, e[i].writes@))
}

impl View for ChainData {
    type V = ChainDataView;

    closed spec fn view(&self) -> ChainDataView {
        ChainDataView {
            slots: self.slots@,
            accounts: entries_view(self.accounts@),
            newest_rooted_slot: self.newest_rooted_slot,
            newest_processed_slot: self.newest_processed_slot,
            best_chain_slot: self.best_chain_slot,
            account_versions_stored: self.account_versions_stored,
            account_bytes_stored: self.account_bytes_stored,
        }
    }
}

/// The writes of a sequence are ordered by slot, ascending.
pub open spec fn sorted_by_slot(ws: Seq<AccountData>) -> bool {
    forall|i: int, j: int| 0 <= i <= j < ws.len() ==> ws[i].slot <= ws[j].slot
}

/// No account occurs twice.
pub open spec fn distinct_keys(e: Seq<(Pubkey, Seq<AccountData>)>) -> bool {
    forall|i: int, j: int| 0 <= i < e.len() && 0 <= j < e.len() && i != j ==> e[i].0 != e[j].0
}

/// Number of writes stored over all accounts.
pub open spec fn total_writes(e: Seq<(Pubkey, Seq<AccountData>)>) -> nat
    decreases e.len(),
{
    if e.len() == 0 {
        0
    } else {
        total_writes(e.drop_last()) + e.last().1.len()
    }
}

/// Number of data bytes of a sequence of writes.
pub open spec fn data_bytes(ws: Seq<AccountData>) -> nat
    decreases ws.len(),
{
    if ws.len() == 0 {
        0
    } else {
        data_bytes(ws.drop_last()) + ws.last().account.data@.len()
    }
}

/// Number of data bytes stored over all accounts.
pub open spec fn total_bytes(e: Seq<(Pubkey, Seq<AccountData>)>) -> nat
    decreases e.len(),
{
    if e.len() == 0 {
        0
    } else {
        total_bytes(e.drop_last()) + data_bytes(e.last().1)
    }
}

pub open spec fn has_account(e: Seq<(Pubkey, Seq<AccountData>)>, k: Pubkey) -> bool {
    exists|i: int| 0 <= i < e.len() && e[i].0 == k
}

pub open spec fn account_pos(e: Seq<(Pubkey, Seq<AccountData>)>, k: Pubkey) -> int {
    choose|i: int| 0 <= i < e.len() && e[i].0 == k
}

/// The writes stored for `k`; empty where none are.
pub open spec fn writes_of(e: Seq<(Pubkey, Seq<AccountData>)>, k: Pubkey) -> Seq<AccountData> {
    if has_account(e, k) {
        e[account_pos(e, k)].1
    } else {
        Seq::empty()
    }
}

impl ChainDataView {
    /// Well-formedness: slots are stored under their own number, accounts occur
    /// once, writes are ordered by slot, the version counter counts the stored
    /// writes, and the stored data fits the address space.
    pub open spec fn wf(self) -> bool {
        &&& forall|k: u64| #[trigger] self.slots.contains_key(k) ==> self.slots[k].slot == k
        &&& distinct_keys(self.accounts)
        &&& forall|i: int| 0 <= i < self.accounts.len() ==> sorted_by_slot(#[trigger] self.accounts[i].1)
        &&& self.account_versions_stored == total_writes(self.accounts)
        &&& total_bytes(self.accounts) <= usize::MAX
    }

    /// A write is live when its slot is rooted or on the best chain, or is
    /// newer than the best chain; a write whose slot is no longer kept is
    /// live when it is at or below the newest rooted slot, or newer than the
    /// best chain.
    pub open spec fn is_write_live(self, w: AccountData) -> bool {
        if self.slots.contains_key(w.slot) {
            let s = self.slots[w.slot];
            s.status == SlotStatus::Finalized || s.chain == self.best_chain_slot || w.slot
                > self.best_chain_slot
        } else {
            w.slot <= self.newest_rooted_slot || w.slot > self.best_chain_slot
        }
    }

    /// Index of the last live write of `ws`, or -1.
    pub open spec fn last_live_index(self, ws: Seq<AccountData>) -> int
        decreases ws.len(),
    {
        if ws.len() == 0 {
            -1
        } else if self.is_write_live(ws.last()) {
            ws.len() - 1
        } else {
            self.last_live_index(ws.drop_last())
        }
    }
}

pub proof fn lemma_last_live_index_bounds(v: ChainDataView, ws: Seq<AccountData>)
    ensures
        -1 <= v.last_live_index(ws) < ws.len(),
        v.last_live_index(ws) >= 0 ==> v.is_write_live(ws[v.last_live_index(ws)]),
        forall|j: int| v.last_live_index(ws) < j < ws.len() ==> !v.is_write_live(#[trigger] ws[j]),
    decreases ws.len(),
{
    if ws.len() > 0 {
        lemma_last_live_index_bounds(v, ws.drop_last());
        assert forall|j: int| v.last_live_index(ws) < j < ws.len() implies !v.is_write_live(
            #[trigger] ws[j],
        ) by {
            if j < ws.len() - 1 {
                assert(ws.drop_last()[j] == ws[j]);
            }
        }
    }
}

proof fn lemma_account_pos(e: Seq<(Pubkey, Seq<AccountData>)>, i: int)
    requires
        distinct_keys(e),
        0 <= i < e.len(),
    ensures
        has_account(e, e[i].0),
        account_pos(e, e[i].0) == i,
        writes_of(e, e[i].0) == e[i].1,
{
    let k = e[i].0;
    assert(0 <= i < e.len() && e[i].0 == k);
    let p = account_pos(e, k);
    assert(0 <= p < e.len() && e[p].0 == k);
}

impl ChainData {
    /// An empty chain state.
    pub fn new() -> (r: Self)
        ensures
            r@.wf(),
            r@.slots == Map::<u64, SlotData>::empty(),
            r@.accounts == Seq::<(Pubkey, Seq<AccountData>)>::empty(),
            r@.newest_rooted_slot == 0,
            r@.newest_processed_slot == 0,
            r@.best_chain_slot == 0,
            r@.account_versions_stored == 0,
            r@.account_bytes_stored == 0,
    {
        let r = ChainData {
            slots: HashMap::new(),
            accounts: Vec::new(),
            newest_rooted_slot: 0,
            newest_processed_slot: 0,
            best_chain_slot: 0,
            account_versions_stored: 0,
            account_bytes_stored: 0,
        };
        assert(entries_view(r.accounts@) =~= Seq::<(Pubkey, Seq<AccountData>)>::empty());
        r
    }

    pub fn newest_rooted_slot(&self) -> (r: u64)
        ensures
            r == self@.newest_rooted_slot,
    {
        self.newest_rooted_slot
    }

    pub fn newest_processed_slot(&self) -> (r: u64)
        ensures
            r == self@.newest_processed_slot,
    {
        self.newest_processed_slot
    }

    pub fn best_chain_slot(&self) -> (r: u64)
        ensures
            r == self@.best_chain_slot,
    {
        self.best_chain_slot
    }

    pub fn account_versions_stored(&self) -> (r: usize)
        ensures
            r == self@.account_versions_stored,
    {
        self.account_versions_stored
    }

    pub fn account_bytes_stored(&self) -> (r: usize)
        ensures
            r == self@.account_bytes_stored,
    {
        self.account_bytes_stored
    }

    /// Whether `write` counts as current: see `ChainDataView::is_write_live`.
    fn is_account_write_live(&self, write: &AccountData) -> (r: bool)
        ensures
            r == self@.is_write_live(*write),
    {
        match self.slots.get(&write.slot) {
            Some(s) => is_finalized(s.status) || s.chain == self.best_chain_slot || write.slot
                > self.best_chain_slot,
            None => write.slot <= self.newest_rooted_slot || write.slot > self.best_chain_slot,
        }
    }

    /// Position of `pubkey` among the stored accounts.
    fn find_account(&self, pubkey: &Pubkey) -> (r: Option<usize>)
        requires
            self@.wf(),
        ensures
            match r {
                Some(i) => i < self@.accounts.len() && self@.accounts[i as int].0 == *pubkey
                    && account_pos(self@.accounts, *pubkey) == i,
                None => !has_account(self@.accounts, *pubkey),
            },
    {
        let n = self.accounts.len();
        let mut i: usize = 0;
        while i < n
            invariant
                n == self.accounts@.len(),
                self@.accounts == entries_view(self.accounts@),
                self@.wf(),
                i <= n,
                forall|j: int| 0 <= j < i ==> self@.accounts[j].0 != *pubkey,
            decreases n - i,
        {
            if keys_equal(&self.accounts[i].pubkey, pubkey) {
                proof {
                    lemma_account_pos(self@.accounts, i as int);
                }
                return Some(i);
            }
            i = i + 1;
        }
        proof {
            assert forall|j: int| 0 <= j < self@.accounts.len() implies self@.accounts[j].0
                != *pubkey by {}
        }
        None
    }

    /// The most recent live write of `pubkey`.
    pub fn account(&self, pubkey: &Pubkey) -> (r: Result<&AccountData, AccountLookupError>)
        requires
            self@.wf(),
        ensures
            ({
                let v = self@;
                let ws = writes_of(v.accounts, *pubkey);
                match r {
                    Err(AccountLookupError::NotFound) => !has_account(v.accounts, *pubkey),
                    Err(AccountLookupError::NoLiveData) => has_account(v.accounts, *pubkey)
                        && v.last_live_index(ws) < 0,
                    Ok(w) => has_account(v.accounts, *pubkey) && v.last_live_index(ws) >= 0
                        && *w == ws[v.last_live_index(ws)],
                }
            }),
    {
        match self.find_account(pubkey) {
            None => Err(AccountLookupError::NotFound),
            Some(i) => {
                let writes = &self.accounts[i].writes;
                let ghost ws = writes@;
                proof {
                    lemma_account_pos(self@.accounts, i as int);
                    assert(ws == writes_of(self@.accounts, *pubkey));
                }
                let mut j = writes.len();
                assert(ws.take(j as int) =~= ws);
                while j > 0
                    invariant
                        j <= writes@.len(),
                        ws == writes@,
                        ws == writes_of(self@.accounts, *pubkey),
                        has_account(self@.accounts, *pubkey),
                        self@.last_live_index(ws) == self@.last_live_index(ws.take(j as int)),
                    decreases j,
                {
                    let w = &writes[j - 1];
                    proof {
                        let t = ws.take(j as int);
                        assert(t.last() == ws[j - 1]);
                        assert(t.drop_last() =~= ws.take(j - 1));
                    }
                    if self.is_account_write_live(w) {
                        assert(self@.last_live_index(ws.take(j as int)) == j - 1);
                        assert(self@.last_live_index(ws) == j - 1);
                        assert(*w == ws[j - 1]);
                        return Ok(w);
                    }
                    j = j - 1;
                }
                assert(ws.take(0) =~= Seq::<AccountData>::empty());
                Err(AccountLookupError::NoLiveData)
            },
        }
    }
}

/// Where a write at `slot` goes in `ws`: just after the last write whose slot
/// is not above `slot`, or at the front where there is none.
pub open spec fn insertion_pos(ws: Seq<AccountData>, slot: u64) -> int
    decreases ws.len(),
{
    if ws.len() == 0 {
        0
    } else if ws.last().slot <= slot {
        ws.len() as int
    } else {
        insertion_pos(ws.drop_last(), slot)
    }
}

proof fn lemma_insertion_pos_char(ws: Seq<AccountData>, slot: u64, p: int)
    requires
        0 <= p <= ws.len(),
        p == 0 || ws[p - 1].slot <= slot,
        forall|j: int| p <= j < ws.len() ==> ws[j].slot > slot,
    ensures
        insertion_pos(ws, slot) == p,
    decreases ws.len(),
{
    if ws.len() > 0 && p < ws.len() {
        let d = ws.drop_last();
        assert forall|j: int| p <= j < d.len() implies d[j].slot > slot by {
            assert(d[j] == ws[j]);
        }
        if p > 0 {
            assert(d[p - 1] == ws[p - 1]);
        }
        lemma_insertion_pos_char(d, slot, p);
    }
}

proof fn lemma_insert_sorted(ws: Seq<AccountData>, a: AccountData, p: int)
    requires
        sorted_by_slot(ws),
        0 <= p <= ws.len(),
        p == 0 || ws[p - 1].slot <= a.slot,
        forall|j: int| p <= j < ws.len() ==> ws[j].slot > a.slot,
    ensures
        sorted_by_slot(ws.insert(p, a)),
{
    let n = ws.insert(p, a);
    assert forall|i: int, j: int| 0 <= i <= j < n.len() implies n[i].slot <= n[j].slot by {
        if i < p && j > p {
            assert(n[i] == ws[i]);
            assert(n[j] == ws[j - 1]);
        } else if i < p && j == p {
            assert(ws[i].slot <= ws[p - 1].slot);
        } else if i == p && j > p {
            assert(n[j] == ws[j - 1]);
        } else if i > p {
            assert(n[i] == ws[i - 1]);
            assert(n[j] == ws[j - 1]);
        }
    }
}

proof fn lemma_data_bytes_insert(ws: Seq<AccountData>, a: AccountData, p: int)
    requires
        0 <= p <= ws.len(),
    ensures
        data_bytes(ws.insert(p, a)) == data_bytes(ws) + a.account.data@.len(),
    decreases ws.len(),
{
    let n = ws.insert(p, a);
    if p == ws.len() {
        assert(n.drop_last() =~= ws);
    } else {
        lemma_data_bytes_insert(ws.drop_last(), a, p);
        assert(n.drop_last() =~= ws.drop_last().insert(p, a));
    }
}

proof fn lemma_totals_update(
    e: Seq<(Pubkey, Seq<AccountData>)>,
    i: int,
    x: (Pubkey, Seq<AccountData>),
)
    requires
        0 <= i < e.len(),
    ensures
        total_writes(e.update(i, x)) + e[i].1.len() == total_writes(e) + x.1.len(),
        total_bytes(e.update(i, x)) + data_bytes(e[i].1) == total_bytes(e) + data_bytes(x.1),
    decreases e.len(),
{
    let n = e.update(i, x);
    if i == e.len() - 1 {
        assert(n.drop_last() =~= e.drop_last());
    } else {
        lemma_totals_update(e.drop_last(), i, x);
        assert(n.drop_last() =~= e.drop_last().update(i, x));
    }
}

proof fn lemma_totals_push(e: Seq<(Pubkey, Seq<AccountData>)>, x: (Pubkey, Seq<AccountData>))
    ensures
        total_writes(e.push(x)) == total_writes(e) + x.1.len(),
        total_bytes(e.push(x)) == total_bytes(e) + data_bytes(x.1),
{
    assert(e.push(x).drop_last() =~= e);
}

proof fn lemma_data_bytes_single(a: AccountData)
    ensures
        data_bytes(seq![a]) == a.account.data@.len(),
{
    let s1 = seq![a];
    assert(s1.drop_last() =~= Seq::<AccountData>::empty());
    assert(s1.last() == a);
    assert(data_bytes(s1.drop_last()) == 0);
}

/// An account's writes after `a` is stored: where the last write whose slot
/// is not above `a`'s is at the same slot, `a` overwrites it unless that
/// write has a higher write version (then nothing changes); otherwise `a` is
/// inserted just after that write (at the front where there is none).
pub open spec fn store_write(ws: Seq<AccountData>, a: AccountData) -> Seq<AccountData> {
    let p = insertion_pos(ws, a.slot);
    if meets_same_slot(ws, a) {
        if ws[p - 1].write_version <= a.write_version {
            ws.update(p - 1, a)
        } else {
            ws
        }
    } else {
        ws.insert(p, a)
    }
}

/// Storing `a` in `ws` meets a stored write at the same slot.
pub open spec fn meets_same_slot(ws: Seq<AccountData>, a: AccountData) -> bool {
    let p = insertion_pos(ws, a.slot);
    p > 0 && ws[p - 1].slot == a.slot
}

/// State after a write to `pk` is stored (see `store_write`), or stored as
/// the first write of a new account; the counters grow by it when it is
/// added rather than written over a write at its slot.
pub open spec fn account_update(o: ChainDataView, pk: Pubkey, a: AccountData) -> ChainDataView {
    let added = !has_account(o.accounts, pk) || !meets_same_slot(writes_of(o.accounts, pk), a);
    ChainDataView {
        accounts: if has_account(o.accounts, pk) {
            let i = account_pos(o.accounts, pk);
            o.accounts.update(i, (pk, store_write(o.accounts[i].1, a)))
        } else {
            o.accounts.push((pk, seq![a]))
        },
        account_versions_stored: if added {
            (o.account_versions_stored + 1) as usize
        } else {
            o.account_versions_stored
        },
        account_bytes_stored: if added {
            (o.account_bytes_stored + a.account.data@.len()) as usize
        } else {
            o.account_bytes_stored
        },
        ..o
    }
}

proof fn lemma_data_bytes_update(ws: Seq<AccountData>, a: AccountData, p: int)
    requires
        0 <= p < ws.len(),
    ensures
        data_bytes(ws.update(p, a)) + ws[p].account.data@.len() == data_bytes(ws) + a.account.data@.len(),
    decreases ws.len(),
{
    let n = ws.update(p, a);
    if p == ws.len() - 1 {
        assert(n.drop_last() =~= ws.drop_last());
    } else {
        lemma_data_bytes_update(ws.drop_last(), a, p);
        assert(n.drop_last() =~= ws.drop_last().update(p, a));
    }
}

impl ChainData {
    /// Stores `account` as a write to `pubkey`, keeping the writes ordered by
    /// slot: a stored write at its slot is overwritten if its write version
    /// is not higher; otherwise it goes just after the last stored write
    /// whose slot is not above its own (see `store_write`).
    pub fn update_account(&mut self, pubkey: Pubkey, account: AccountData)
        requires
            old(self)@.wf(),
            old(self)@.account_versions_stored < usize::MAX,
            old(self)@.account_bytes_stored + account.account.data@.len() <= usize::MAX,
            total_bytes(old(self)@.accounts) + account.account.data@.len() <= usize::MAX,
        ensures
            final(self)@.wf(),
            final(self)@ == account_update(old(self)@, pubkey, account),
    {
        let ghost old_v = self@;
        let len = account.account.data.len();
        match self.find_account(&pubkey) {
            None => {
                self.account_versions_stored = self.account_versions_stored + 1;
                self.account_bytes_stored = self.account_bytes_stored + len;
                let ghost a = account;
                let mut writes = Vec::new();
                writes.push(account);
                self.accounts.push(AccountWrites { pubkey, writes });
                proof {
                    assert(entries_view(self.accounts@) =~= old_v.accounts.push((pubkey, seq![a])));
                    lemma_totals_push(old_v.accounts, (pubkey, seq![a]));
                    lemma_data_bytes_single(a);
                    let e = self@.accounts;
                    assert forall|x: int, y: int|
                        0 <= x < e.len() && 0 <= y < e.len() && x != y implies e[x].0 != e[y].0 by {
                        if x == e.len() - 1 {
                            assert(old_v.accounts[y].0 == e[y].0);
                        } else if y == e.len() - 1 {
                            assert(old_v.accounts[x].0 == e[x].0);
                        } else {
                            assert(old_v.accounts[x] == e[x]);
                            assert(old_v.accounts[y] == e[y]);
                        }
                    }
                    assert forall|x: int| 0 <= x < e.len() implies sorted_by_slot(
                        #[trigger] e[x].1,
                    ) by {
                        if x < e.len() - 1 {
                            assert(old_v.accounts[x] == e[x]);
                        }
                    }
                }
            },
            Some(i) => {
                let mut entry = self.accounts.remove(i);
                let ghost ws = entry.writes@;
                let ghost a = account;
                proof {
                    assert(old_v.accounts[i as int] == (entry.pubkey, ws));
                }
                let v_len = entry.writes.len();
                let mut k = v_len;
                while k > 0
                    invariant
                        k <= v_len,
                        v_len == ws.len(),
                        entry.writes@ == ws,
                        a == account,
                        forall|j: int| k <= j < ws.len() ==> ws[j].slot > account.slot,
                    ensures
                        k <= v_len,
                        k == 0 || ws[k - 1].slot <= account.slot,
                        forall|j: int| k <= j < ws.len() ==> ws[j].slot > account.slot,
                    decreases k,
                {
                    if entry.writes[k - 1].slot <= account.slot {
                        break;
                    }
                    k = k - 1;
                }
                let pos = k;
                proof {
                    lemma_insertion_pos_char(ws, account.slot, pos as int);
                }
                proof {
                    assert(old_v.accounts[i as int].1 == ws);
                    lemma_account_pos(old_v.accounts, i as int);
                    assert(writes_of(old_v.accounts, pubkey) == ws);
                }
                if pos > 0 && entry.writes[pos - 1].slot == account.slot {
                    // a write at this slot sits just before `pos`: keep the newer version
                    if entry.writes[pos - 1].write_version <= account.write_version {
                        let ghost before = entry.writes@;
                        entry.writes.set(pos - 1, account);
                        proof {
                            lemma_data_bytes_update(ws, a, pos - 1);
                            let n = entry.writes@;
                            assert(n == ws.update(pos - 1, a));
                            assert forall|x: int, y: int| 0 <= x <= y < n.len() implies n[x].slot
                                <= n[y].slot by {
                                assert(ws[x].slot <= ws[y].slot);
                            }
                        }
                    }
                } else {
                    self.account_versions_stored = self.account_versions_stored + 1;
                    self.account_bytes_stored = self.account_bytes_stored + len;
                    entry.writes.insert(pos, account);
                    proof {
                        lemma_data_bytes_insert(ws, a, pos as int);
                        lemma_insert_sorted(ws, a, pos as int);
                    }
                }
                let ghost new_ws = entry.writes@;
                self.accounts.insert(i, entry);
                proof {
                    assert(new_ws == store_write(ws, a));
                    assert(entries_view(self.accounts@) =~= old_v.accounts.update(
                        i as int,
                        (pubkey, new_ws),
                    ));
                    lemma_totals_update(old_v.accounts, i as int, (pubkey, new_ws));
                    let e = self@.accounts;
                    assert forall|x: int, y: int|
                        0 <= x < e.len() && 0 <= y < e.len() && x != y implies e[x].0 != e[y].0 by {
                        assert(e[x].0 == old_v.accounts[x].0);
                        assert(e[y].0 == old_v.accounts[y].0);
                    }
                    assert forall|x: int| 0 <= x < e.len() implies sorted_by_slot(
                        #[trigger] e[x].1,
                    ) by {
                        if x != i {
                            assert(old_v.accounts[x] == e[x]);
                        }
                    }
                }
            },
        }
    }
}

/// The stored record of a slot after an update for it arrives: a new slot
/// is stored as it comes; a known one keeps its parent if it had one, and
/// takes the new status when its own is `Processed` or the new one is
/// `Finalized`.
pub open spec fn merge_slot(stored: Option<SlotData>, new: SlotData) -> SlotData {
    match stored {
        None => new,
        Some(v) => SlotData {
            slot: v.slot,
            parent: if v.parent is Some {
                v.parent
            } else {
                new.parent
            },
            status: if v.status == SlotStatus::Processed || new.status == SlotStatus::Finalized {
                new.status
            } else {
                v.status
            },
            chain: v.chain,
        },
    }
}

/// A known slot learns a parent it did not have recorded.
pub open spec fn is_parent_update(stored: Option<SlotData>, new: SlotData) -> bool {
    match stored {
        None => false,
        Some(v) => v.parent != new.parent && new.parent is Some,
    }
}

/// Walking from `s` through parents stops within `fuel` steps: at a slot that
/// is not kept, is finalized, or has no known parent.
pub open spec fn walk_stops(m: Map<u64, SlotData>, s: u64, fuel: nat) -> bool
    decreases fuel,
{
    if !m.contains_key(s) {
        true
    } else if m[s].status == SlotStatus::Finalized {
        true
    } else {
        match m[s].parent {
            None => true,
            Some(p) => fuel > 0 && walk_stops(m, p, (fuel - 1) as nat),
        }
    }
}

/// `m` with the `chain` field set to `best` on every slot of the walk from `s`.
pub open spec fn mark_chain(m: Map<u64, SlotData>, s: u64, best: u64, fuel: nat) -> Map<
    u64,
    SlotData,
>
    decreases fuel,
{
    if !m.contains_key(s) {
        m
    } else {
        let d = m[s];
        let m2 = m.insert(s, SlotData { slot: d.slot, parent: d.parent, status: d.status, chain: best });
        if d.status == SlotStatus::Finalized {
            m2
        } else {
            match d.parent {
                None => m2,
                Some(p) => if fuel == 0 {
                    m2
                } else {
                    mark_chain(m2, p, best, (fuel - 1) as nat)
                },
            }
        }
    }
}

/// Number of steps within which the walk from `s` stops, when it does.
pub open spec fn walk_fuel(m: Map<u64, SlotData>, s: u64) -> nat {
    choose|n: nat| walk_stops(m, s, n)
}

/// Two slot maps that differ at most in the `chain` fields.
pub open spec fn same_shape(m1: Map<u64, SlotData>, m2: Map<u64, SlotData>) -> bool {
    &&& m1.dom() == m2.dom()
    &&& forall|k: u64| #[trigger] m1.contains_key(k) ==> m1[k].slot == m2[k].slot && m1[k].parent
        == m2[k].parent && m1[k].status == m2[k].status
}

proof fn lemma_walk_stops_shape(m1: Map<u64, SlotData>, m2: Map<u64, SlotData>, s: u64, f: nat)
    requires
        same_shape(m1, m2),
        walk_stops(m1, s, f),
    ensures
        walk_stops(m2, s, f),
    decreases f,
{
    assert(m1.contains_key(s) == m2.contains_key(s));
    if m1.contains_key(s) && m1[s].status != SlotStatus::Finalized {
        if let Some(p) = m1[s].parent {
            lemma_walk_stops_shape(m1, m2, p, (f - 1) as nat);
        }
    }
}

impl ChainData {
    /// Stores the merge of `new_slot` into the record of its slot; tells
    /// whether a known slot learned a new parent.
    fn merge_slot_entry(&mut self, new_slot: SlotData) -> (parent_update: bool)
        requires
            old(self)@.wf(),
        ensures
            parent_update == is_parent_update(old(self)@.slots.get(new_slot.slot), new_slot),
            final(self)@ == (ChainDataView {
                slots: old(self)@.slots.insert(
                    new_slot.slot,
                    merge_slot(old(self)@.slots.get(new_slot.slot), new_slot),
                ),
                ..old(self)@
            }),
            final(self)@.wf(),
    {
        match self.slots.get(&new_slot.slot) {
            None => {
                self.slots.insert(new_slot.slot, new_slot);
                false
            },
            Some(stored) => {
                let mut v = *stored;
                let parent_update = match (v.parent, new_slot.parent) {
                    (Some(a), Some(b)) => a != b,
                    (None, Some(_)) => true,
                    (_, None) => false,
                };
                v.parent = match v.parent {
                    Some(p) => Some(p),
                    None => new_slot.parent,
                };
                if is_processed(v.status) || is_finalized(new_slot.status) {
                    v.status = new_slot.status;
                }
                self.slots.insert(new_slot.slot, v);
                parent_update
            },
        }
    }

    /// Sets `chain` to the best chain slot on every slot from the best chain
    /// slot down through known parents, to the first finalized slot.
    fn mark_best_chain(&mut self)
        requires
            old(self)@.wf(),
            walk_stops(old(self)@.slots, old(self)@.best_chain_slot, walk_fuel(old(self)@.slots, old(self)@.best_chain_slot)),
        ensures
            final(self)@ == (ChainDataView {
                slots: mark_chain(
                    old(self)@.slots,
                    old(self)@.best_chain_slot,
                    old(self)@.best_chain_slot,
                    walk_fuel(old(self)@.slots, old(self)@.best_chain_slot),
                ),
                ..old(self)@
            }),
            same_shape(old(self)@.slots, final(self)@.slots),
            final(self)@.wf(),
    {
        let ghost v0 = self@;
        let best = self.best_chain_slot;
        let ghost target = mark_chain(v0.slots, best, best, walk_fuel(v0.slots, best));
        let ghost mut f: nat = walk_fuel(v0.slots, best);
        let mut slot = best;
        loop
            invariant
                self@ == (ChainDataView { slots: self@.slots, ..v0 }),
                best == v0.best_chain_slot,
                same_shape(v0.slots, self@.slots),
                walk_stops(self@.slots, slot, f),
                mark_chain(self@.slots, slot, best, f) == target,
                v0.wf(),
            ensures
                self@ == (ChainDataView { slots: target, ..v0 }),
                same_shape(v0.slots, self@.slots),
            decreases f,
        {
            match self.slots.get(&slot) {
                Some(d) => {
                    let mut data = *d;
                    let ghost cur = self@.slots;
                    data.chain = best;
                    self.slots.insert(slot, data);
                    proof {
                        assert(cur.contains_key(slot));
                        assert(self@.slots.dom() =~= cur.dom());
                        assert(same_shape(cur, self@.slots));
                        assert(same_shape(v0.slots, self@.slots));
                    }
                    if is_finalized(data.status) {
                        break;
                    }
                    match data.parent {
                        Some(parent) => {
                            proof {
                                lemma_walk_stops_shape(cur, self@.slots, parent, (f - 1) as nat);
                                f = (f - 1) as nat;
                            }
                            slot = parent;
                        },
                        None => {
                            break;
                        },
                    }
                },
                None => {
                    break;
                },
            }
        }
    }
}

/// A write at or below the rooted slot whose slot is finalized or on the best
/// chain, or no longer kept: such a write can be treated as rooted.
pub open spec fn rooted_candidate(m: Map<u64, SlotData>, best: u64, rooted: u64, w: AccountData) -> bool {
    w.slot <= rooted && (m.contains_key(w.slot) ==> (m[w.slot].status == SlotStatus::Finalized
        || m[w.slot].chain == best))
}

/// Slot of the last write of `ws` that can be treated as rooted; `rooted + 1`
/// where there is none.
pub open spec fn newest_rooted_write(
    ws: Seq<AccountData>,
    m: Map<u64, SlotData>,
    best: u64,
    rooted: u64,
) -> int
    decreases ws.len(),
{
    if ws.len() == 0 {
        rooted + 1
    } else if rooted_candidate(m, best, rooted, ws.last()) {
        ws.last().slot as int
    } else {
        newest_rooted_write(ws.drop_last(), m, best, rooted)
    }
}

/// The writes of `ws` at slot `keep` or above `rooted`, in order.
pub open spec fn retained(ws: Seq<AccountData>, keep: int, rooted: u64) -> Seq<AccountData>
    decreases ws.len(),
{
    if ws.len() == 0 {
        ws
    } else {
        let r = retained(ws.drop_last(), keep, rooted);
        if ws.last().slot == keep || ws.last().slot > rooted {
            r.push(ws.last())
        } else {
            r
        }
    }
}

/// What pruning at a new rooted slot keeps of an account's writes: the newest
/// rooted one and all those above the rooted slot.
pub open spec fn prune_writes(ws: Seq<AccountData>, m: Map<u64, SlotData>, best: u64, rooted: u64) -> Seq<
    AccountData,
> {
    retained(ws, newest_rooted_write(ws, m, best, rooted), rooted)
}

pub open spec fn prune_accounts(
    e: Seq<(Pubkey, Seq<AccountData>)>,
    m: Map<u64, SlotData>,
    best: u64,
    rooted: u64,
) -> Seq<(Pubkey, Seq<AccountData>)> {
    Seq::new(e.len(), |i: int| (e[i].0, prune_writes(e[i].1, m, best, rooted)))
}

/// The slots at or above `rooted`.
pub open spec fn prune_slots(m: Map<u64, SlotData>, rooted: u64) -> Map<u64, SlotData> {
    Map::new(|k: u64| m.contains_key(k) && k >= rooted, |k: u64| m[k])
}

proof fn lemma_retained(ws: Seq<AccountData>, keep: int, rooted: u64)
    ensures
        retained(ws, keep, rooted).len() <= ws.len(),
        data_bytes(retained(ws, keep, rooted)) <= data_bytes(ws),
        forall|i: int|
            0 <= i < retained(ws, keep, rooted).len() ==> exists|j: int|
                0 <= j < ws.len() && #[trigger] retained(ws, keep, rooted)[i] == ws[j],
        sorted_by_slot(ws) ==> sorted_by_slot(retained(ws, keep, rooted)),
        forall|i: int|
            0 <= i < retained(ws, keep, rooted).len() ==> (#[trigger] retained(
                ws,
                keep,
                rooted,
            )[i]).slot == keep || retained(ws, keep, rooted)[i].slot > rooted,
    decreases ws.len(),
{
    if ws.len() > 0 {
        let d = ws.drop_last();
        lemma_retained(d, keep, rooted);
        let r = retained(d, keep, rooted);
        let rr = retained(ws, keep, rooted);
        if ws.last().slot == keep || ws.last().slot > rooted {
            assert(rr == r.push(ws.last()));
            assert(rr.drop_last() =~= r);
            assert forall|i: int| 0 <= i < rr.len() implies exists|j: int|
                0 <= j < ws.len() && #[trigger] rr[i] == ws[j] by {
                if i < r.len() {
                    let j = choose|j: int| 0 <= j < d.len() && r[i] == d[j];
                    assert(rr[i] == ws[j]);
                } else {
                    assert(rr[i] == ws[ws.len() - 1]);
                }
            }
            if sorted_by_slot(ws) {
                assert forall|x: int, y: int| 0 <= x <= y < rr.len() implies rr[x].slot
                    <= rr[y].slot by {
                    if y < r.len() {
                        assert(rr[x] == r[x] && rr[y] == r[y]);
                    } else if x < r.len() {
                        let j = choose|j: int| 0 <= j < d.len() && r[x] == d[j];
                        assert(rr[x] == ws[j]);
                    }
                }
            }
        } else {
            assert forall|i: int| 0 <= i < rr.len() implies exists|j: int|
                0 <= j < ws.len() && #[trigger] rr[i] == ws[j] by {
                let j = choose|j: int| 0 <= j < d.len() && r[i] == d[j];
                assert(rr[i] == ws[j]);
            }
            if sorted_by_slot(ws) {
                assert(sorted_by_slot(d));
            }
        }
    }
}

proof fn lemma_totals_le(a: Seq<(Pubkey, Seq<AccountData>)>, b: Seq<(Pubkey, Seq<AccountData>)>)
    requires
        a.len() == b.len(),
        forall|j: int|
            0 <= j < a.len() ==> (#[trigger] a[j]).1.len() <= b[j].1.len() && data_bytes(a[j].1)
                <= data_bytes(b[j].1),
    ensures
        total_writes(a) <= total_writes(b),
        total_bytes(a) <= total_bytes(b),
    decreases a.len(),
{
    if a.len() > 0 {
        let (da, db) = (a.drop_last(), b.drop_last());
        assert forall|j: int| 0 <= j < da.len() implies (#[trigger] da[j]).1.len() <= db[j].1.len()
            && data_bytes(da[j].1) <= data_bytes(db[j].1) by {
            assert(da[j] == a[j] && db[j] == b[j]);
        }
        lemma_totals_le(da, db);
        assert(a.last() == a[a.len() - 1]);
    }
}

proof fn lemma_prune_le(e: Seq<(Pubkey, Seq<AccountData>)>, m: Map<u64, SlotData>, best: u64, rooted: u64, k: int)
    requires
        0 <= k <= e.len(),
    ensures
        ({
            let pe = prune_accounts(e, m, best, rooted);
            &&& total_writes(pe.take(k)) <= total_writes(e.take(k))
            &&& total_bytes(pe.take(k)) <= total_bytes(e.take(k))
        }),
{
    let pe = prune_accounts(e, m, best, rooted);
    let (a, b) = (pe.take(k), e.take(k));
    assert forall|j: int| 0 <= j < a.len() implies (#[trigger] a[j]).1.len() <= b[j].1.len()
        && data_bytes(a[j].1) <= data_bytes(b[j].1) by {
        lemma_retained(e[j].1, newest_rooted_write(e[j].1, m, best, rooted), rooted);
    }
    lemma_totals_le(a, b);
}

proof fn lemma_totals_take(e: Seq<(Pubkey, Seq<AccountData>)>, i: int)
    requires
        0 <= i < e.len(),
    ensures
        total_writes(e.take(i + 1)) == total_writes(e.take(i)) + e[i].1.len(),
        total_bytes(e.take(i + 1)) == total_bytes(e.take(i)) + data_bytes(e[i].1),
{
    assert(e.take(i + 1).drop_last() =~= e.take(i));
}

impl ChainData {
    /// Slot of the newest write of `writes` that can be treated as rooted, or
    /// `fallback` (one above the rooted slot) where there is none.
    fn newest_rooted_write_slot(&self, writes: &Vec<AccountData>, fallback: u64) -> (r: u64)
        requires
            fallback == self@.newest_rooted_slot + 1,
        ensures
            r == newest_rooted_write(
                writes@,
                self@.slots,
                self@.best_chain_slot,
                self@.newest_rooted_slot,
            ),
    {
        let ghost v = self@;
        let ghost ws = writes@;
        let mut j = writes.len();
        assert(ws.take(j as int) =~= ws);
        while j > 0
            invariant
                j <= ws.len(),
                ws == writes@,
                v == self@,
                fallback == v.newest_rooted_slot + 1,
                newest_rooted_write(ws, v.slots, v.best_chain_slot, v.newest_rooted_slot)
                    == newest_rooted_write(
                    ws.take(j as int),
                    v.slots,
                    v.best_chain_slot,
                    v.newest_rooted_slot,
                ),
            decreases j,
        {
            let w = &writes[j - 1];
            proof {
                let t = ws.take(j as int);
                assert(t.last() == ws[j - 1]);
                assert(t.drop_last() =~= ws.take(j - 1));
            }
            if w.slot <= self.newest_rooted_slot {
                let rooted_like = match self.slots.get(&w.slot) {
                    Some(s) => is_finalized(s.status) || s.chain == self.best_chain_slot,
                    None => true,
                };
                if rooted_like {
                    return w.slot;
                }
            }
            j = j - 1;
        }
        assert(ws.take(0) =~= Seq::<AccountData>::empty());
        fallback
    }

    /// Removes the writes that are neither at slot `keep` nor above `rooted`.
    fn retain_writes(writes: &mut Vec<AccountData>, keep: u64, rooted: u64)
        ensures
            final(writes)@ == retained(old(writes)@, keep as int, rooted),
    {
        let ghost ws = writes@;
        let n = writes.len();
        let mut j: usize = 0;
        let mut idx: usize = 0;
        assert(ws.take(0) =~= Seq::<AccountData>::empty());
        assert(writes@ =~= retained(ws.take(0), keep as int, rooted) + ws.skip(0));
        while j < n
            invariant
                n == ws.len(),
                j <= n,
                writes@ == retained(ws.take(j as int), keep as int, rooted) + ws.skip(j as int),
                idx == retained(ws.take(j as int), keep as int, rooted).len(),
                idx <= j,
            decreases n - j,
        {
            let ghost r = retained(ws.take(j as int), keep as int, rooted);
            proof {
                let t = ws.take(j + 1);
                assert(t.drop_last() =~= ws.take(j as int));
                assert(t.last() == ws[j as int]);
                assert(writes@[idx as int] == ws[j as int]);
                lemma_retained(ws.take(j as int), keep as int, rooted);
            }
            let slot = writes[idx].slot;
            if slot == keep || slot > rooted {
                idx = idx + 1;
                proof {
                    assert(writes@ =~= r.push(ws[j as int]) + ws.skip(j + 1));
                }
            } else {
                writes.remove(idx);
                proof {
                    assert(writes@ =~= r + ws.skip(j + 1));
                }
            }
            j = j + 1;
        }
        assert(ws.take(n as int) =~= ws);
        assert(writes@ =~= retained(ws, keep as int, rooted));
    }

    /// Total data length of `writes`.
    fn data_bytes_of(writes: &Vec<AccountData>) -> (r: usize)
        requires
            data_bytes(writes@) <= usize::MAX,
        ensures
            r == data_bytes(writes@),
    {
        let ghost ws = writes@;
        let mut sum: usize = 0;
        let mut k: usize = 0;
        assert(ws.take(0) =~= Seq::<AccountData>::empty());
        while k < writes.len()
            invariant
                ws == writes@,
                k <= ws.len(),
                sum == data_bytes(ws.take(k as int)),
                data_bytes(ws) <= usize::MAX,
            decreases ws.len() - k,
        {
            proof {
                let t = ws.take(k + 1);
                assert(t.drop_last() =~= ws.take(k as int));
                lemma_data_bytes_prefix(ws, k + 1);
            }
            sum = sum + writes[k].account.data.len();
            k = k + 1;
        }
        assert(ws.take(k as int) =~= ws);
        sum
    }

    /// Keeps, for every account, its newest rooted write and the writes
    /// above the rooted slot, and recounts the stored versions and bytes.
    fn prune_account_writes(&mut self)
        requires
            old(self)@.wf(),
            old(self)@.accounts.len() > 0 ==> old(self)@.newest_rooted_slot < u64::MAX,
        ensures
            ({
                let o = old(self)@;
                let e = prune_accounts(o.accounts, o.slots, o.best_chain_slot, o.newest_rooted_slot);
                final(self)@ == (ChainDataView {
                    accounts: e,
                    account_versions_stored: total_writes(e) as usize,
                    account_bytes_stored: total_bytes(e) as usize,
                    ..o
                })
            }),
            final(self)@.wf(),
    {
        let ghost o = self@;
        let ghost pe = prune_accounts(o.accounts, o.slots, o.best_chain_slot, o.newest_rooted_slot);
        self.account_versions_stored = 0;
        self.account_bytes_stored = 0;
        let n = self.accounts.len();
        let mut i: usize = 0;
        proof {
            assert(pe.take(0) =~= Seq::<(Pubkey, Seq<AccountData>)>::empty());
            assert(o.accounts.skip(0) =~= o.accounts);
            assert(self@.accounts =~= pe.take(0) + o.accounts.skip(0));
        }
        while i < n
            invariant
                n == o.accounts.len(),
                i <= n,
                o.wf(),
                n > 0 ==> o.newest_rooted_slot < u64::MAX,
                pe == prune_accounts(o.accounts, o.slots, o.best_chain_slot, o.newest_rooted_slot),
                self@ == (ChainDataView {
                    accounts: self@.accounts,
                    account_versions_stored: self@.account_versions_stored,
                    account_bytes_stored: self@.account_bytes_stored,
                    ..o
                }),
                self@.accounts == pe.take(i as int) + o.accounts.skip(i as int),
                self.accounts@.len() == n,
                self@.account_versions_stored == total_writes(pe.take(i as int)),
                self@.account_bytes_stored == total_bytes(pe.take(i as int)),
            decreases n - i,
        {
            proof {
                assert(pe.len() == n);
                assert(self@.accounts[i as int] == o.accounts.skip(i as int)[0]);
            }
            let ghost acc_before = self.accounts@;
            let mut entry = self.accounts.remove(i);
            let ghost ws = entry.writes@;
            let ghost pk = entry.pubkey;
            proof {
                assert(acc_before[i as int] == entry);
                assert(ws == o.accounts[i as int].1);
            }
            let fallback = self.newest_rooted_slot + 1;
            let keep = self.newest_rooted_write_slot(&entry.writes, fallback);
            let rooted = self.newest_rooted_slot;
            Self::retain_writes(&mut entry.writes, keep, rooted);
            proof {
                assert(entry.writes@ == pe[i as int].1);
                lemma_retained(ws, keep as int, rooted);
                lemma_totals_take(pe, i as int);
                lemma_prune_le(o.accounts, o.slots, o.best_chain_slot, o.newest_rooted_slot, i + 1);
                lemma_totals_prefix(o.accounts, i + 1);
                lemma_totals_prefix(pe, i + 1);
            }
            let count = entry.writes.len();
            let bytes = Self::data_bytes_of(&entry.writes);
            self.account_versions_stored = self.account_versions_stored + count;
            self.account_bytes_stored = self.account_bytes_stored + bytes;
            let ghost new_entry = entry;
            self.accounts.insert(i, entry);
            proof {
                assert(self.accounts@ =~= acc_before.update(i as int, new_entry));
                assert(new_entry.pubkey == o.accounts[i as int].0);
                assert(new_entry.writes@ == pe[i as int].1);
                let lhs = entries_view(self.accounts@);
                let rhs = pe.take(i + 1) + o.accounts.skip(i + 1);
                assert forall|j: int| 0 <= j < n implies lhs[j] == rhs[j] by {
                    if j < i {
                        assert(entries_view(acc_before)[j] == pe.take(i as int)[j]);
                    } else if j > i {
                        assert(entries_view(acc_before)[j] == o.accounts.skip(i as int)[j - i]);
                    }
                }
                assert(entries_view(self.accounts@) =~= pe.take(i + 1) + o.accounts.skip(i + 1));
            }
            i = i + 1;
        }
        proof {
            assert(pe.take(n as int) =~= pe);
            assert(o.accounts.skip(n as int) =~= Seq::<(Pubkey, Seq<AccountData>)>::empty());
            assert(self@.accounts =~= pe);
            let e = self@.accounts;
            assert forall|x: int, y: int|
                0 <= x < e.len() && 0 <= y < e.len() && x != y implies e[x].0 != e[y].0 by {
                assert(e[x].0 == o.accounts[x].0);
                assert(e[y].0 == o.accounts[y].0);
            }
            assert forall|x: int| 0 <= x < e.len() implies sorted_by_slot(#[trigger] e[x].1) by {
                lemma_retained(
                    o.accounts[x].1,
                    newest_rooted_write(
                        o.accounts[x].1,
                        o.slots,
                        o.best_chain_slot,
                        o.newest_rooted_slot,
                    ),
                    o.newest_rooted_slot,
                );
            }
        }
    }
}

impl ChainData {
    /// Drops the slots below the newest rooted slot.
    fn prune_old_slots(&mut self)
        requires
            old(self)@.wf(),
        ensures
            final(self)@ == (ChainDataView {
                slots: prune_slots(old(self)@.slots, old(self)@.newest_rooted_slot),
                ..old(self)@
            }),
            final(self)@.wf(),
    {
        let ghost o = self@;
        let rooted = self.newest_rooted_slot;
        let mut to_remove: Vec<u64> = Vec::new();
        let ghost ks = vstd::std_specs::hash::spec_keys_iter(&self.slots).remaining();
        proof {
            vstd::std_specs::hash::axiom_spec_keys_iter(&self.slots);
        }
        for k in it: self.slots.keys()
            invariant
                o == self@,
                rooted == o.newest_rooted_slot,
                it.seq() == ks,
                ks.unref().to_set() == o.slots.dom(),
                forall|x: int| 0 <= x < to_remove@.len() ==> #[trigger] to_remove@[x] < rooted,
                forall|x: int| 0 <= x < to_remove@.len() ==> o.slots.contains_key(#[trigger] to_remove@[x]),
                forall|j: int| 0 <= j < it.index() && *ks[j] < rooted ==> to_remove@.contains(*ks[j]),
        {
            let ghost j0 = it.index();
            proof {
                assert(*k == *ks[j0]);
                assert(ks.unref()[j0] == *k);
                assert(ks.unref().to_set().contains(*k));
            }
            let ghost tr0 = to_remove@;
            proof {
                assert(o.slots.dom().contains(*k));
            }
            if *k < rooted {
                to_remove.push(*k);
            }
            proof {
                assert forall|x: int| 0 <= x < to_remove@.len() implies #[trigger] to_remove@[x] < rooted
                    && o.slots.contains_key(to_remove@[x]) by {
                    if x < tr0.len() {
                        assert(to_remove@[x] == tr0[x]);
                        assert(o.slots.contains_key(tr0[x]));
                    } else {
                        assert(to_remove@[x] == *k);
                        assert(o.slots.contains_key(*k));
                    }
                }
                assert forall|j: int| 0 <= j <= j0 && *ks[j] < rooted implies to_remove@.contains(*ks[j]) by {
                    if j == j0 {
                        assert(to_remove@[to_remove@.len() - 1] == *ks[j]);
                    } else {
                        assert(tr0.contains(*ks[j]));
                        let x = choose|x: int| 0 <= x < tr0.len() && tr0[x] == *ks[j];
                        assert(to_remove@[x] == tr0[x]);
                    }
                }
            }
        }
        proof {
            assert forall|k: u64| o.slots.contains_key(k) && k < rooted implies to_remove@.contains(k) by {
                assert(ks.unref().to_set().contains(k));
                let j = choose|j: int| 0 <= j < ks.unref().len() && ks.unref()[j] == k;
                assert(*ks[j] == k);
            }
        }
        let n = to_remove.len();
        let mut j: usize = 0;
        while j < n
            invariant
                n == to_remove@.len(),
                j <= n,
                self@ == (ChainDataView { slots: self@.slots, ..o }),
                forall|x: int| 0 <= x < to_remove.len() ==> to_remove@[x] < rooted,
                rooted == o.newest_rooted_slot,
                self@.slots == Map::new(
                    |k: u64| o.slots.contains_key(k) && !to_remove@.take(j as int).contains(k),
                    |k: u64| o.slots[k],
                ),
            decreases n - j,
        {
            let key = to_remove[j];
            self.slots.remove(&key);
            proof {
                let t0 = to_remove@.take(j as int);
                let t1 = to_remove@.take(j + 1);
                assert(t1 =~= t0.push(key));
                assert forall|k: u64| t1.contains(k) <==> (t0.contains(k) || k == key) by {
                    if t1.contains(k) {
                        let x = choose|x: int| 0 <= x < t1.len() && t1[x] == k;
                        if x < j {
                            assert(t0[x] == k);
                        }
                    }
                    if t0.contains(k) {
                        let x = choose|x: int| 0 <= x < t0.len() && t0[x] == k;
                        assert(t1[x] == k);
                    }
                    if k == key {
                        assert(t1[j as int] == k);
                    }
                }
                assert(self@.slots =~= Map::new(
                    |k: u64| o.slots.contains_key(k) && !to_remove@.take(j + 1).contains(k),
                    |k: u64| o.slots[k],
                ));
            }
            j = j + 1;
        }
        proof {
            assert(to_remove@.take(n as int) =~= to_remove@);
            assert forall|k: u64| #[trigger] to_remove@.contains(k) implies k < rooted by {
                let x = choose|x: int| 0 <= x < to_remove@.len() && to_remove@[x] == k;
            }
            assert(self@.slots =~= prune_slots(o.slots, rooted));
        }
    }
}

/// The update raises the newest rooted slot.
pub open spec fn is_new_rooted_head(o: ChainDataView, s: SlotData) -> bool {
    s.slot > o.newest_rooted_slot && s.status == SlotStatus::Finalized
}

/// The update is for a slot with a known parent above the best chain slot.
pub open spec fn is_new_best_chain(o: ChainDataView, s: SlotData) -> bool {
    s.parent is Some && s.slot > o.best_chain_slot
}

/// The update asks for the `chain` fields to be walked again.
pub open spec fn walk_needed(o: ChainDataView, s: SlotData) -> bool {
    is_new_best_chain(o, s) || is_parent_update(o.slots.get(s.slot), s)
}

/// The update is for a slot below the newest rooted slot: that part of the
/// chain is settled, and only slots at or above the rooted slot are kept.
pub open spec fn is_below_root(o: ChainDataView, s: SlotData) -> bool {
    s.slot < o.newest_rooted_slot
}

/// The update's slot has a record afterwards: it is not below the rooted
/// slot, or it already had one. A new slot below the rooted slot gets none.
pub open spec fn is_kept(o: ChainDataView, s: SlotData) -> bool {
    !is_below_root(o, s) || o.slots.contains_key(s.slot)
}

/// State after the heads are raised and the slot record is merged.
pub open spec fn after_merge(o: ChainDataView, s: SlotData) -> ChainDataView {
    ChainDataView {
        slots: if is_kept(o, s) {
            o.slots.insert(s.slot, merge_slot(o.slots.get(s.slot), s))
        } else {
            o.slots
        },
        newest_processed_slot: if s.slot > o.newest_processed_slot {
            s.slot
        } else {
            o.newest_processed_slot
        },
        newest_rooted_slot: if is_new_rooted_head(o, s) {
            s.slot
        } else {
            o.newest_rooted_slot
        },
        best_chain_slot: if is_new_best_chain(o, s) {
            s.slot
        } else {
            o.best_chain_slot
        },
        ..o
    }
}

/// State after the `chain` fields are walked, when the update asks for it.
pub open spec fn after_walk(o: ChainDataView, s: SlotData) -> ChainDataView {
    let m = after_merge(o, s);
    if walk_needed(o, s) {
        ChainDataView {
            slots: mark_chain(m.slots, m.best_chain_slot, m.best_chain_slot, walk_fuel(m.slots, m.best_chain_slot)),
            ..m
        }
    } else {
        m
    }
}

/// State after a slot update: the heads are raised, the slot's record is
/// merged (a new slot below the rooted slot gets none), the best chain is
/// re-marked where asked for, and on a new rooted head, account writes and
/// slots made obsolete by it are dropped and the stored counts are
/// recomputed.
pub open spec fn slot_update(o: ChainDataView, s: SlotData) -> ChainDataView {
    let w = after_walk(o, s);
    if is_new_rooted_head(o, s) {
        let e = prune_accounts(w.accounts, w.slots, w.best_chain_slot, w.newest_rooted_slot);
        ChainDataView {
            slots: prune_slots(w.slots, w.newest_rooted_slot),
            accounts: e,
            account_versions_stored: total_writes(e) as usize,
            account_bytes_stored: total_bytes(e) as usize,
            ..w
        }
    } else {
        w
    }
}

/// The walk from the best chain slot through parents comes to an end (it
/// would not if parents formed a cycle).
pub open spec fn update_walk_terminates(o: ChainDataView, s: SlotData) -> bool {
    walk_needed(o, s) ==> exists|n: nat|
        walk_stops(after_merge(o, s).slots, after_merge(o, s).best_chain_slot, n)
}

/// Pruning computes one above the new rooted slot for each stored account.
pub open spec fn root_bump_fits(o: ChainDataView, s: SlotData) -> bool {
    is_new_rooted_head(o, s) && o.accounts.len() > 0 ==> s.slot < u64::MAX
}

impl ChainData {
    /// Records an update for a slot: raises the newest processed, rooted and
    /// best-chain slots as it allows, merges it into the slot's record (a
    /// new slot below the newest rooted slot is not stored), re-marks the
    /// best chain down to the first finalized slot when the best chain or a
    /// parent changed, and on a new rooted head drops the account writes and
    /// slots that it made obsolete.
    pub fn update_slot(&mut self, new_slot: SlotData)
        requires
            old(self)@.wf(),
            update_walk_terminates(old(self)@, new_slot),
            root_bump_fits(old(self)@, new_slot),
        ensures
            final(self)@ == slot_update(old(self)@, new_slot),
            final(self)@.wf(),
    {
        broadcast use vstd::std_specs::hash::group_hash_axioms;

        let ghost o = self@;
        let keep = new_slot.slot >= self.newest_rooted_slot || self.slots.contains_key(
            &new_slot.slot,
        );
        let new_processed_head = new_slot.slot > self.newest_processed_slot;
        if new_processed_head {
            self.newest_processed_slot = new_slot.slot;
        }
        let new_rooted_head = new_slot.slot > self.newest_rooted_slot && is_finalized(
            new_slot.status,
        );
        if new_rooted_head {
            self.newest_rooted_slot = new_slot.slot;
        }
        let new_best_chain = new_slot.parent.is_some() && new_slot.slot > self.best_chain_slot;
        if new_best_chain {
            self.best_chain_slot = new_slot.slot;
        }
        let parent_update = if keep {
            self.merge_slot_entry(new_slot)
        } else {
            false
        };
        proof {
            assert(self@ == after_merge(o, new_slot));
        }
        if new_best_chain || parent_update {
            proof {
                let m = after_merge(o, new_slot);
                let n = choose|n: nat| walk_stops(m.slots, m.best_chain_slot, n);
                assert(walk_stops(m.slots, m.best_chain_slot, n));
            }
            self.mark_best_chain();
        }
        proof {
            assert(self@ == after_walk(o, new_slot));
        }
        if new_rooted_head {
            self.prune_account_writes();
            self.prune_old_slots();
        }
    }
}

proof fn lemma_data_bytes_prefix(ws: Seq<AccountData>, k: int)
    requires
        0 <= k <= ws.len(),
    ensures
        data_bytes(ws.take(k)) <= data_bytes(ws),
    decreases ws.len() - k,
{
    if k < ws.len() {
        lemma_data_bytes_prefix(ws, k + 1);
        assert(ws.take(k + 1).drop_last() =~= ws.take(k));
    } else {
        assert(ws.take(k) =~= ws);
    }
}

proof fn lemma_totals_prefix(e: Seq<(Pubkey, Seq<AccountData>)>, k: int)
    requires
        0 <= k <= e.len(),
    ensures
        total_writes(e.take(k)) <= total_writes(e),
        total_bytes(e.take(k)) <= total_bytes(e),
    decreases e.len() - k,
{
    if k < e.len() {
        lemma_totals_prefix(e, k + 1);
        assert(e.take(k + 1).drop_last() =~= e.take(k));
    } else {
        assert(e.take(k) =~= e);
    }
}

impl ChainData {
    /// Whether `update_account` may store a write carrying `data_len` bytes:
    /// the version and byte counters, and the bytes stored over all
    /// accounts, stay within `usize`.
    pub fn can_store_write(&self, data_len: usize) -> (r: bool)
        requires
            self@.wf(),
        ensures
            r == (self@.account_versions_stored < usize::MAX && self@.account_bytes_stored
                + data_len <= usize::MAX && total_bytes(self@.accounts) + data_len <= usize::MAX),
    {
        if self.account_versions_stored == usize::MAX {
            return false;
        }
        if self.account_bytes_stored > usize::MAX - data_len {
            return false;
        }
        let ghost e = self@.accounts;
        let n = self.accounts.len();
        let mut sum: usize = 0;
        let mut i: usize = 0;
        assert(e.take(0) =~= Seq::<(Pubkey, Seq<AccountData>)>::empty());
        while i < n
            invariant
                e == self@.accounts,
                self@.wf(),
                n == e.len(),
                i <= n,
                sum == total_bytes(e.take(i as int)),
            decreases n - i,
        {
            proof {
                lemma_totals_take(e, i as int);
                lemma_totals_prefix(e, i + 1);
                assert(e[i as int].1 == self.accounts@[i as int].writes@);
            }
            let b = Self::data_bytes_of(&self.accounts[i].writes);
            sum = sum + b;
            i = i + 1;
        }
        assert(e.take(n as int) =~= e);
        sum <= usize::MAX - data_len
    }

    /// Whether `update_slot(new_slot)` may be called: the walk through
    /// parents from the best chain slot, where the update asks for one,
    /// comes to an end, and a new rooted head is below `u64::MAX` or comes
    /// with no account stored. A walk that takes more steps than there are
    /// slots has met a slot twice, and then goes round for ever.
    pub fn can_update_slot(&self, new_slot: &SlotData) -> (r: bool)
        requires
            self@.wf(),
        ensures
            r == (update_walk_terminates(self@, *new_slot) && root_bump_fits(self@, *new_slot)),
    {
        broadcast use vstd::std_specs::hash::group_hash_axioms;

        let ghost o = self@;
        let ghost m = after_merge(o, *new_slot);
        let stored = self.slots.get(&new_slot.slot);
        let merged = match stored {
            None => *new_slot,
            Some(v) => SlotData {
                slot: v.slot,
                parent: match v.parent {
                    Some(p) => Some(p),
                    None => new_slot.parent,
                },
                status: if is_processed(v.status) || is_finalized(new_slot.status) {
                    new_slot.status
                } else {
                    v.status
                },
                chain: v.chain,
            },
        };
        assert(merged == merge_slot(o.slots.get(new_slot.slot), *new_slot));
        let keep = new_slot.slot >= self.newest_rooted_slot || stored.is_some();
        let rooted_head = new_slot.slot > self.newest_rooted_slot && is_finalized(new_slot.status);
        if rooted_head && self.accounts.len() > 0 && new_slot.slot == u64::MAX {
            return false;
        }
        let new_best_chain = new_slot.parent.is_some() && new_slot.slot > self.best_chain_slot;
        let parent_update = match stored {
            None => false,
            Some(v) => match (v.parent, new_slot.parent) {
                (Some(a), Some(b)) => a != b,
                (None, Some(_)) => true,
                _ => false,
            },
        };
        assert(parent_update == is_parent_update(o.slots.get(new_slot.slot), *new_slot));
        if !new_best_chain && !parent_update {
            return true;
        }
        let best = if new_best_chain {
            new_slot.slot
        } else {
            self.best_chain_slot
        };
        let kept = self.slots.len();
        proof {
            if keep {
                assert(m.slots.dom() =~= o.slots.dom().insert(new_slot.slot));
            } else {
                assert(m.slots =~= o.slots);
            }
            vstd::set_lib::lemma_len_subset(m.slots.dom(), m.slots.dom());
        }
        let bound: u128 = kept as u128 + 1;
        let mut steps: u128 = 0;
        let mut slot = best;
        let ghost mut path: Seq<u64> = seq![best];
        loop
            invariant
                o == self@,
                m == after_merge(o, *new_slot),
                keep == is_kept(o, *new_slot),
                keep ==> merged == m.slots[new_slot.slot] && m.slots.contains_key(new_slot.slot),
                forall|k: u64| (k != new_slot.slot || !keep) ==> #[trigger] m.slots.contains_key(k)
                    == o.slots.contains_key(k) && (o.slots.contains_key(k) ==> m.slots[k] == o.slots[k]),
                best == m.best_chain_slot,
                walk_needed(o, *new_slot),
                root_bump_fits(o, *new_slot),
                m.slots.dom().finite(),
                m.slots.dom().len() <= bound,
                steps <= bound,
                path.len() == steps + 1,
                path[0] == best,
                path.last() == slot,
                on_path(m.slots, path),
                // the walk from `best` reaches `slot` in `steps` steps
                forall|n: nat| walk_stops(m.slots, slot, n) ==> walk_stops(m.slots, best, (n + steps) as nat),
            decreases bound - steps,
        {
            let d = if slot == new_slot.slot && keep {
                Some(merged)
            } else {
                match self.slots.get(&slot) {
                    Some(x) => Some(*x),
                    None => None,
                }
            };
            match d {
                None => {
                    proof {
                        assert(walk_stops(m.slots, slot, 0));
                        assert(walk_stops(m.slots, best, steps as nat));
                    }
                    return true;
                },
                Some(x) => {
                    if is_finalized(x.status) {
                        proof {
                            assert(walk_stops(m.slots, slot, 0));
                        }
                        return true;
                    }
                    match x.parent {
                        None => {
                            proof {
                                assert(walk_stops(m.slots, slot, 0));
                            }
                            return true;
                        },
                        Some(p) => {
                            if steps == bound {
                                proof {
                                    lemma_long_walk_never_stops(m.slots, path);
                                }
                                return false;
                            }
                            proof {
                                assert forall|n: nat| walk_stops(m.slots, p, n) implies walk_stops(
                                    m.slots,
                                    best,
                                    (n + steps + 1) as nat,
                                ) by {
                                    assert(walk_stops(m.slots, slot, (n + 1) as nat));
                                }
                                let old_path = path;
                                path = path.push(p);
                                assert forall|k: int| 0 <= k < path.len() - 1 implies #[trigger] step_ok(
                                    m.slots,
                                    path[k],
                                    path[k + 1],
                                ) by {
                                    if k < old_path.len() - 1 {
                                        assert(path[k] == old_path[k] && path[k + 1] == old_path[k + 1]);
                                        assert(step_ok(m.slots, old_path[k], old_path[k + 1]));
                                    }
                                }
                            }
                            slot = p;
                            steps = steps + 1;
                        },
                    }
                },
            }
        }
    }
}

/// From `s` the walk goes on to `t`: `s` is kept, not finalized, and has
/// parent `t`.
pub open spec fn step_ok(m: Map<u64, SlotData>, s: u64, t: u64) -> bool {
    &&& m.contains_key(s)
    &&& m[s].status != SlotStatus::Finalized
    &&& m[s].parent == Some(t)
}

/// `path` follows the walk, one parent at a time.
pub open spec fn on_path(m: Map<u64, SlotData>, path: Seq<u64>) -> bool {
    forall|k: int| 0 <= k < path.len() - 1 ==> #[trigger] step_ok(m, path[k], path[k + 1])
}

proof fn lemma_walk_along(m: Map<u64, SlotData>, path: Seq<u64>, a: int, b: int, n: nat)
    requires
        on_path(m, path),
        0 <= a <= b < path.len(),
        walk_stops(m, path[a], n),
    ensures
        n >= b - a,
        walk_stops(m, path[b], (n - (b - a)) as nat),
    decreases b - a,
{
    if a < b {
        assert(step_ok(m, path[a], path[a + 1]));
        assert(n > 0 && walk_stops(m, path[a + 1], (n - 1) as nat));
        lemma_walk_along(m, path, a + 1, b, (n - 1) as nat);
    }
}

proof fn lemma_cycle_never_stops(m: Map<u64, SlotData>, path: Seq<u64>, i: int, j: int, n: nat)
    requires
        on_path(m, path),
        0 <= i < j < path.len(),
        path[i] == path[j],
    ensures
        !walk_stops(m, path[i], n),
    decreases n,
{
    if walk_stops(m, path[i], n) {
        lemma_walk_along(m, path, i, j, n);
        lemma_cycle_never_stops(m, path, i, j, (n - (j - i)) as nat);
    }
}

/// A walk that has followed more parents than there are slots never ends.
proof fn lemma_long_walk_never_stops(m: Map<u64, SlotData>, path: Seq<u64>)
    requires
        on_path(m, path),
        path.len() > 0,
        m.dom().finite(),
        m.dom().len() < path.len(),
        m.contains_key(path.last()),
    ensures
        forall|n: nat| !walk_stops(m, path[0], n),
{
    assert(path.to_set().subset_of(m.dom())) by {
        assert forall|x: u64| path.to_set().contains(x) implies m.dom().contains(x) by {
            let k = choose|k: int| 0 <= k < path.len() && path[k] == x;
            if k < path.len() - 1 {
                assert(step_ok(m, path[k], path[k + 1]));
            }
        }
    }
    vstd::set_lib::lemma_len_subset(path.to_set(), m.dom());
    if path.no_duplicates() {
        path.unique_seq_to_set();
        assert(false);
    }
    let (i, j) = choose|i: int, j: int|
        0 <= i < path.len() && 0 <= j < path.len() && i != j && path[i] == path[j];
    let (i, j) = if i < j {
        (i, j)
    } else {
        (j, i)
    };
    assert forall|n: nat| !walk_stops(m, path[0], n) by {
        if walk_stops(m, path[0], n) {
            lemma_walk_along(m, path, 0, i, n);
            lemma_cycle_never_stops(m, path, i, j, (n - i) as nat);
        }
    }
}

/// A slot update never lowers the commitment status of a kept slot, and
/// never replaces or clears a parent that a kept slot has. The updated slot
/// keeps a record (unless it is a new slot below the rooted slot), with the
/// stronger of its stored status and the status in the update, and with its
/// known parent, or else the update's.
pub proof fn law_slot_status_never_decreases(o: ChainDataView, s: SlotData)
    requires
        o.wf(),
        update_walk_terminates(o, s),
    ensures
        ({
            let n = slot_update(o, s);
            &&& forall|k: u64|
                o.slots.contains_key(k) && #[trigger] n.slots.contains_key(k) ==> status_rank(
                    n.slots[k].status,
                ) >= status_rank(o.slots[k].status) && (o.slots[k].parent is Some
                    ==> n.slots[k].parent == o.slots[k].parent)
            &&& is_kept(o, s) ==> n.slots.contains_key(s.slot)
            &&& is_kept(o, s) ==> status_rank(n.slots[s.slot].status) == if o.slots.contains_key(s.slot)
                && status_rank(o.slots[s.slot].status) > status_rank(s.status) {
                status_rank(o.slots[s.slot].status)
            } else {
                status_rank(s.status)
            }
            &&& is_kept(o, s) ==> n.slots[s.slot].parent == if o.slots.contains_key(s.slot)
                && o.slots[s.slot].parent is Some {
                o.slots[s.slot].parent
            } else {
                s.parent
            }
            &&& !is_kept(o, s) ==> !n.slots.contains_key(s.slot)
        }),
{
    let m = after_merge(o, s);
    let w = after_walk(o, s);
    let n = slot_update(o, s);
    if walk_needed(o, s) {
        let f = walk_fuel(m.slots, m.best_chain_slot);
        lemma_mark_chain_shape(m.slots, m.best_chain_slot, m.best_chain_slot, f);
    }
    assert(same_shape(m.slots, w.slots));
    assert(is_kept(o, s) ==> m.slots.contains_key(s.slot));
    assert forall|k: u64| o.slots.contains_key(k) && #[trigger] n.slots.contains_key(k) implies status_rank(
        n.slots[k].status,
    ) >= status_rank(o.slots[k].status) && (o.slots[k].parent is Some ==> n.slots[k].parent
        == o.slots[k].parent) by {
        assert(w.slots.contains_key(k));
        assert(m.slots.contains_key(k));
    }
}

/// Only slots at or above the newest rooted slot are kept: a slot update
/// and an account write keep that so.
pub proof fn law_slots_at_or_above_root(o: ChainDataView, s: SlotData, pk: Pubkey, a: AccountData)
    requires
        o.wf(),
        update_walk_terminates(o, s),
        forall|k: u64| #[trigger] o.slots.contains_key(k) ==> k >= o.newest_rooted_slot,
    ensures
        forall|k: u64| #[trigger] slot_update(o, s).slots.contains_key(k) ==> k >= slot_update(
            o,
            s,
        ).newest_rooted_slot,
        forall|k: u64| #[trigger] account_update(o, pk, a).slots.contains_key(k) ==> k
            >= account_update(o, pk, a).newest_rooted_slot,
{
    if is_new_rooted_head(o, s) {
        law_rooting_prunes_below_root(o, s, pk);
        return;
    }
    let m = after_merge(o, s);
    let w = after_walk(o, s);
    if walk_needed(o, s) {
        let f = walk_fuel(m.slots, m.best_chain_slot);
        lemma_mark_chain_shape(m.slots, m.best_chain_slot, m.best_chain_slot, f);
    }
    assert(same_shape(m.slots, w.slots));
    assert forall|k: u64| #[trigger] slot_update(o, s).slots.contains_key(k) implies k
        >= slot_update(o, s).newest_rooted_slot by {
        assert(m.slots.contains_key(k));
    }
}

proof fn lemma_mark_chain_shape(m: Map<u64, SlotData>, s: u64, best: u64, f: nat)
    ensures
        same_shape(m, mark_chain(m, s, best, f)),
    decreases f,
{
    if m.contains_key(s) {
        let d = m[s];
        let m2 = m.insert(s, SlotData { slot: d.slot, parent: d.parent, status: d.status, chain: best });
        assert(m2.dom() =~= m.dom());
        assert(same_shape(m, m2));
        if d.status != SlotStatus::Finalized {
            if let Some(p) = d.parent {
                if f > 0 {
                    lemma_mark_chain_shape(m2, p, best, (f - 1) as nat);
                }
            }
        }
    }
}

/// A slot update raises the newest processed slot to the update's slot, the
/// newest rooted slot when the update is finalized, and the best chain slot
/// when it has a parent, so none of them goes down, also for a slot below
/// the rooted slot; storing an account write leaves them and the slots as
/// they were.
pub proof fn law_heads_monotone(o: ChainDataView, s: SlotData, pk: Pubkey, a: AccountData)
    ensures
        slot_update(o, s).newest_processed_slot >= o.newest_processed_slot,
        slot_update(o, s).newest_rooted_slot >= o.newest_rooted_slot,
        slot_update(o, s).best_chain_slot >= o.best_chain_slot,
        slot_update(o, s).newest_processed_slot == if s.slot > o.newest_processed_slot {
            s.slot
        } else {
            o.newest_processed_slot
        },
        slot_update(o, s).newest_rooted_slot == if s.status == SlotStatus::Finalized && s.slot
            > o.newest_rooted_slot {
            s.slot
        } else {
            o.newest_rooted_slot
        },
        slot_update(o, s).best_chain_slot == if s.parent is Some && s.slot > o.best_chain_slot {
            s.slot
        } else {
            o.best_chain_slot
        },
        account_update(o, pk, a).slots == o.slots,
        account_update(o, pk, a).newest_processed_slot == o.newest_processed_slot,
        account_update(o, pk, a).newest_rooted_slot == o.newest_rooted_slot,
        account_update(o, pk, a).best_chain_slot == o.best_chain_slot,
{
}

/// After a slot update that raises the rooted slot, no slot below it is
/// kept, every account write above it is still stored, and the writes kept
/// at or below it all belong to one slot (the newest rooted write's).
pub proof fn law_rooting_prunes_below_root(o: ChainDataView, s: SlotData, pk: Pubkey)
    requires
        o.wf(),
        is_new_rooted_head(o, s),
    ensures
        ({
            let n = slot_update(o, s);
            &&& forall|k: u64| #[trigger] n.slots.contains_key(k) ==> k >= s.slot
            &&& forall|w: AccountData|
                #[trigger] writes_of(o.accounts, pk).contains(w) && w.slot > s.slot ==> writes_of(
                    n.accounts,
                    pk,
                ).contains(w)
            &&& forall|i: int, j: int|
                0 <= i < writes_of(n.accounts, pk).len() && 0 <= j < writes_of(n.accounts, pk).len()
                    && (#[trigger] writes_of(n.accounts, pk)[i]).slot <= s.slot && (
                #[trigger] writes_of(n.accounts, pk)[j]).slot <= s.slot ==> writes_of(
                    n.accounts,
                    pk,
                )[i].slot == writes_of(n.accounts, pk)[j].slot
        }),
{
    let n = slot_update(o, s);
    let w = after_walk(o, s);
    assert(w.accounts == o.accounts);
    assert(distinct_keys(n.accounts)) by {
        assert forall|x1: int, y1: int|
            0 <= x1 < n.accounts.len() && 0 <= y1 < n.accounts.len() && x1 != y1 implies n.accounts[x1].0
            != n.accounts[y1].0 by {
            assert(n.accounts[x1].0 == o.accounts[x1].0);
            assert(n.accounts[y1].0 == o.accounts[y1].0);
        }
    }
    if has_account(o.accounts, pk) {
        let i = account_pos(o.accounts, pk);
        lemma_account_pos(o.accounts, i);
        lemma_account_pos(n.accounts, i);
        let ws = o.accounts[i].1;
        let keep = newest_rooted_write(ws, w.slots, w.best_chain_slot, w.newest_rooted_slot);
        lemma_retained(ws, keep, s.slot);
        assert(writes_of(n.accounts, pk) == retained(ws, keep, s.slot));
    } else {
        assert(!has_account(n.accounts, pk)) by {
            if has_account(n.accounts, pk) {
                let j = choose|j: int| 0 <= j < n.accounts.len() && n.accounts[j].0 == pk;
                assert(o.accounts[j].0 == pk);
            }
        }
    }
    assert forall|x: AccountData|
        #[trigger] writes_of(o.accounts, pk).contains(x) && x.slot > s.slot implies writes_of(
        n.accounts,
        pk,
    ).contains(x) by {
        let i = account_pos(o.accounts, pk);
        assert(has_account(o.accounts, pk));
        let ws = o.accounts[i].1;
        assert(n.accounts[i].0 == pk);
        lemma_account_pos(o.accounts, i);
        lemma_account_pos(n.accounts, i);
        let keep = newest_rooted_write(ws, w.slots, w.best_chain_slot, w.newest_rooted_slot);
        lemma_retained_keeps(ws, keep, s.slot, x);
    }
}

proof fn lemma_retained_keeps(ws: Seq<AccountData>, keep: int, rooted: u64, x: AccountData)
    requires
        ws.contains(x),
        x.slot > rooted || x.slot == keep,
    ensures
        retained(ws, keep, rooted).contains(x),
    decreases ws.len(),
{
    let d = ws.drop_last();
    let r = retained(d, keep, rooted);
    if ws.last() == x {
        assert(retained(ws, keep, rooted) == r.push(x));
        assert(r.push(x)[r.len() as int] == x);
    } else {
        let j = choose|j: int| 0 <= j < ws.len() && ws[j] == x;
        assert(j < ws.len() - 1);
        assert(d[j] == x);
        lemma_retained_keeps(d, keep, rooted, x);
        let k = choose|k: int| 0 <= k < r.len() && r[k] == x;
        if ws.last().slot == keep || ws.last().slot > rooted {
            assert(r.push(ws.last())[k] == x);
        }
    }
}

proof fn lemma_newest_rooted_write_found(
    ws: Seq<AccountData>,
    m: Map<u64, SlotData>,
    best: u64,
    rooted: u64,
    j: int,
) -> (j2: int)
    requires
        0 <= j < ws.len(),
        (ws[j].slot <= rooted && (!m.contains_key(ws[j].slot) || m[ws[j].slot].status == SlotStatus::Finalized || m[ws[j].slot].chain == best)),
    ensures
        j <= j2 < ws.len(),
        (ws[j2].slot <= rooted && (!m.contains_key(ws[j2].slot) || m[ws[j2].slot].status == SlotStatus::Finalized || m[ws[j2].slot].chain == best)),
        newest_rooted_write(ws, m, best, rooted) == ws[j2].slot,
    decreases ws.len(),
{
    if (ws.last().slot <= rooted && (!m.contains_key(ws.last().slot) || m[ws.last().slot].status == SlotStatus::Finalized || m[ws.last().slot].chain == best)) {
        (ws.len() - 1) as int
    } else {
        let d = ws.drop_last();
        assert(d[j] == ws[j]);
        let j2 = lemma_newest_rooted_write_found(d, m, best, rooted, j);
        assert(d[j2] == ws[j2]);
        j2
    }
}

/// When a slot update raises the rooted slot, an account that has a write at
/// or below the new rooted slot standing for the rooted state (its slot
/// finalized, on the best chain as marked by the update, or unknown) keeps
/// such a write, at least as new as that one: pruning never leaves it
/// without its rooted state.
pub proof fn law_rooting_keeps_rooted_state(o: ChainDataView, s: SlotData, pk: Pubkey, x: AccountData)
    requires
        o.wf(),
        is_new_rooted_head(o, s),
        writes_of(o.accounts, pk).contains(x),
        (x.slot <= s.slot && (!after_walk(o, s).slots.contains_key(x.slot) || after_walk(o, s).slots[x.slot].status == SlotStatus::Finalized || after_walk(o, s).slots[x.slot].chain == after_walk(o, s).best_chain_slot)),
    ensures
        exists|y: AccountData|
            #[trigger] writes_of(slot_update(o, s).accounts, pk).contains(y) && (y.slot <= s.slot && (!after_walk(o, s).slots.contains_key(y.slot) || after_walk(o, s).slots[y.slot].status == SlotStatus::Finalized || after_walk(o, s).slots[y.slot].chain == after_walk(o, s).best_chain_slot)) && y.slot >= x.slot,
{
    let n = slot_update(o, s);
    let w = after_walk(o, s);
    assert(w.accounts == o.accounts);
    assert(w.newest_rooted_slot == s.slot);
    let i = account_pos(o.accounts, pk);
    assert(has_account(o.accounts, pk));
    lemma_account_pos(o.accounts, i);
    assert(n.accounts[i].0 == pk);
    assert(distinct_keys(n.accounts)) by {
        assert forall|x1: int, y1: int|
            0 <= x1 < n.accounts.len() && 0 <= y1 < n.accounts.len() && x1 != y1 implies n.accounts[x1].0
            != n.accounts[y1].0 by {
            assert(n.accounts[x1].0 == o.accounts[x1].0);
            assert(n.accounts[y1].0 == o.accounts[y1].0);
        }
    }
    lemma_account_pos(n.accounts, i);
    let ws = o.accounts[i].1;
    assert(sorted_by_slot(ws));
    let j = choose|j: int| 0 <= j < ws.len() && ws[j] == x;
    let j2 = lemma_newest_rooted_write_found(ws, w.slots, w.best_chain_slot, s.slot, j);
    let y = ws[j2];
    let keep = newest_rooted_write(ws, w.slots, w.best_chain_slot, w.newest_rooted_slot);
    assert(ws.contains(y));
    lemma_retained_keeps(ws, keep, s.slot, y);
    assert(writes_of(n.accounts, pk) == retained(ws, keep, s.slot));
    assert(writes_of(n.accounts, pk).contains(y));
}

/// Reading an account right after storing a live write to it, at a slot at
/// least as high as any stored for it and with a write version at least as
/// high as any stored at its slot, gives back that write.
pub proof fn law_read_after_write(o: ChainDataView, pk: Pubkey, a: AccountData)
    requires
        o.wf(),
        forall|j: int| 0 <= j < writes_of(o.accounts, pk).len() ==> (#[trigger] writes_of(o.accounts, pk)[j]).slot <= a.slot,
        forall|j: int|
            0 <= j < writes_of(o.accounts, pk).len() && (#[trigger] writes_of(o.accounts, pk)[j]).slot
                == a.slot ==> writes_of(o.accounts, pk)[j].write_version <= a.write_version,
        o.is_write_live(a),
    ensures
        ({
            let n = account_update(o, pk, a);
            let ws = writes_of(n.accounts, pk);
            &&& has_account(n.accounts, pk)
            &&& n.last_live_index(ws) >= 0
            &&& ws[n.last_live_index(ws)] == a
        }),
{
    let n = account_update(o, pk, a);
    if has_account(o.accounts, pk) {
        let i = account_pos(o.accounts, pk);
        lemma_account_pos(o.accounts, i);
        let ws = o.accounts[i].1;
        if ws.len() > 0 {
            assert(ws.last() == ws[ws.len() - 1]);
        }
        lemma_insertion_pos_char(ws, a.slot, ws.len() as int);
        assert(writes_of(o.accounts, pk) == ws);
        let stored = store_write(ws, a);
        if meets_same_slot(ws, a) {
            assert(ws[ws.len() - 1].write_version <= a.write_version);
            assert(stored == ws.update(ws.len() - 1, a));
        } else {
            assert(ws.insert(ws.len() as int, a) =~= ws.push(a));
        }
        assert(stored.len() > 0 && stored.last() == a);
        assert(n.accounts[i] == (pk, stored));
        assert(distinct_keys(n.accounts)) by {
            assert forall|x1: int, y1: int|
                0 <= x1 < n.accounts.len() && 0 <= y1 < n.accounts.len() && x1 != y1 implies n.accounts[x1].0
                != n.accounts[y1].0 by {
                assert(n.accounts[x1].0 == o.accounts[x1].0);
                assert(n.accounts[y1].0 == o.accounts[y1].0);
            }
        }
        lemma_account_pos(n.accounts, i);
    } else {
        let e = n.accounts;
        assert(e == o.accounts.push((pk, seq![a])));
        assert(distinct_keys(e)) by {
            assert forall|x1: int, y1: int|
                0 <= x1 < e.len() && 0 <= y1 < e.len() && x1 != y1 implies e[x1].0 != e[y1].0 by {
                if x1 == e.len() - 1 {
                    assert(o.accounts[y1].0 == e[y1].0);
                } else if y1 == e.len() - 1 {
                    assert(o.accounts[x1].0 == e[x1].0);
                } else {
                    assert(o.accounts[x1] == e[x1]);
                    assert(o.accounts[y1] == e[y1]);
                }
            }
        }
        lemma_account_pos(e, e.len() - 1);
        assert(seq![a].last() == a);
    }
}

/// The writes of `ws` are at strictly increasing slots: no two share one.
pub open spec fn strictly_ordered(ws: Seq<AccountData>) -> bool {
    forall|i: int, j: int| 0 <= i < j < ws.len() ==> ws[i].slot < ws[j].slot
}

/// Every account's writes are at strictly increasing slots.
pub open spec fn accounts_strictly_ordered(e: Seq<(Pubkey, Seq<AccountData>)>) -> bool {
    forall|i: int| 0 <= i < e.len() ==> strictly_ordered(#[trigger] e[i].1)
}

proof fn lemma_insertion_pos_props(ws: Seq<AccountData>, slot: u64)
    ensures
        0 <= insertion_pos(ws, slot) <= ws.len(),
        insertion_pos(ws, slot) == 0 || ws[insertion_pos(ws, slot) - 1].slot <= slot,
        forall|j: int| insertion_pos(ws, slot) <= j < ws.len() ==> ws[j].slot > slot,
    decreases ws.len(),
{
    if ws.len() > 0 && ws.last().slot > slot {
        let d = ws.drop_last();
        lemma_insertion_pos_props(d, slot);
        assert forall|j: int| insertion_pos(ws, slot) <= j < ws.len() implies ws[j].slot > slot by {
            if j < d.len() {
                assert(ws[j] == d[j]);
            }
        }
        if insertion_pos(ws, slot) > 0 {
            assert(ws[insertion_pos(ws, slot) - 1] == d[insertion_pos(ws, slot) - 1]);
        }
    }
}

proof fn lemma_store_write_strict(ws: Seq<AccountData>, a: AccountData)
    requires
        strictly_ordered(ws),
    ensures
        strictly_ordered(store_write(ws, a)),
{
    lemma_insertion_pos_props(ws, a.slot);
    let p = insertion_pos(ws, a.slot);
    let n = store_write(ws, a);
    if meets_same_slot(ws, a) {
        if ws[p - 1].write_version <= a.write_version {
            assert forall|i: int, j: int| 0 <= i < j < n.len() implies n[i].slot < n[j].slot by {
                assert(n[i].slot == ws[i].slot && n[j].slot == ws[j].slot);
            }
        }
    } else {
        assert(n == ws.insert(p, a));
        assert forall|i: int, j: int| 0 <= i < j < n.len() implies n[i].slot < n[j].slot by {
            if i < p && j > p {
                assert(n[i] == ws[i] && n[j] == ws[j - 1]);
            } else if i < p && j == p {
                assert(n[i] == ws[i]);
                if i < p - 1 {
                    assert(ws[i].slot < ws[p - 1].slot);
                }
            } else if i == p {
                assert(n[j] == ws[j - 1]);
            } else if i > p {
                assert(n[i] == ws[i - 1] && n[j] == ws[j - 1]);
            } else {
                assert(n[i] == ws[i] && n[j] == ws[j]);
            }
        }
    }
}

proof fn lemma_retained_strict(ws: Seq<AccountData>, keep: int, rooted: u64)
    requires
        strictly_ordered(ws),
    ensures
        strictly_ordered(retained(ws, keep, rooted)),
    decreases ws.len(),
{
    if ws.len() > 0 {
        let d = ws.drop_last();
        assert(strictly_ordered(d)) by {
            assert forall|i: int, j: int| 0 <= i < j < d.len() implies d[i].slot < d[j].slot by {
                assert(d[i] == ws[i] && d[j] == ws[j]);
            }
        }
        lemma_retained_strict(d, keep, rooted);
        lemma_retained(d, keep, rooted);
        let r = retained(d, keep, rooted);
        if ws.last().slot == keep || ws.last().slot > rooted {
            let n = r.push(ws.last());
            assert(retained(ws, keep, rooted) == n);
            assert forall|i: int, j: int| 0 <= i < j < n.len() implies n[i].slot < n[j].slot by {
                if j == n.len() - 1 {
                    let k = choose|k: int| 0 <= k < d.len() && r[i] == d[k];
                    assert(d[k] == ws[k]);
                    assert(n[i] == r[i]);
                } else {
                    assert(n[i] == r[i] && n[j] == r[j]);
                }
            }
        }
    }
}

/// Storing a write and updating a slot keep every account's writes at
/// strictly increasing slots: no account holds two writes at one slot.
pub proof fn law_writes_strictly_ordered(o: ChainDataView, s: SlotData, pk: Pubkey, a: AccountData)
    requires
        o.wf(),
        accounts_strictly_ordered(o.accounts),
    ensures
        accounts_strictly_ordered(account_update(o, pk, a).accounts),
        accounts_strictly_ordered(slot_update(o, s).accounts),
{
    let e = account_update(o, pk, a).accounts;
    assert forall|x: int| 0 <= x < e.len() implies strictly_ordered(#[trigger] e[x].1) by {
        if has_account(o.accounts, pk) {
            let i = account_pos(o.accounts, pk);
            lemma_account_pos(o.accounts, i);
            if x == i {
                lemma_store_write_strict(o.accounts[i].1, a);
            } else {
                assert(e[x] == o.accounts[x]);
            }
        } else if x < o.accounts.len() {
            assert(e[x] == o.accounts[x]);
        } else {
            assert(e[x].1 == seq![a]);
        }
    }
    let w = after_walk(o, s);
    assert(w.accounts == o.accounts);
    if is_new_rooted_head(o, s) {
        let f = slot_update(o, s).accounts;
        assert forall|x: int| 0 <= x < f.len() implies strictly_ordered(#[trigger] f[x].1) by {
            let ws = o.accounts[x].1;
            assert(strictly_ordered(o.accounts[x].1));
            lemma_retained_strict(
                ws,
                newest_rooted_write(ws, w.slots, w.best_chain_slot, w.newest_rooted_slot),
                w.newest_rooted_slot,
            );
        }
    }
}

/// Every kept slot's parent is below it.
pub open spec fn parents_descend(m: Map<u64, SlotData>) -> bool {
    forall|k: u64| #[trigger] m.contains_key(k) ==> (m[k].parent matches Some(p) ==> p < k)
}

proof fn lemma_descending_walk_stops(m: Map<u64, SlotData>, x: u64, f: nat)
    requires
        parents_descend(m),
        f >= x,
    ensures
        walk_stops(m, x, f),
    decreases x,
{
    if m.contains_key(x) && m[x].status != SlotStatus::Finalized {
        if let Some(p) = m[x].parent {
            lemma_descending_walk_stops(m, p, (f - 1) as nat);
        }
    }
}

/// When every parent lies below its slot, in the kept slots and in the
/// update, the walk through parents comes to an end, and the parents still
/// lie below their slots afterwards.
pub proof fn law_descending_parents_terminate(o: ChainDataView, s: SlotData)
    requires
        o.wf(),
        parents_descend(o.slots),
        s.parent matches Some(p) ==> p < s.slot,
    ensures
        update_walk_terminates(o, s),
        parents_descend(slot_update(o, s).slots),
{
    let m = after_merge(o, s);
    assert(parents_descend(m.slots)) by {
        assert forall|k: u64| #[trigger] m.slots.contains_key(k) implies (m.slots[k].parent matches Some(
            p,
        ) ==> p < k) by {
            if k == s.slot {
                if o.slots.contains_key(k) {
                    assert(o.slots[k].slot == k);
                }
            }
        }
    }
    lemma_descending_walk_stops(m.slots, m.best_chain_slot, m.best_chain_slot as nat);
    let w = after_walk(o, s);
    if walk_needed(o, s) {
        let f = walk_fuel(m.slots, m.best_chain_slot);
        lemma_mark_chain_shape(m.slots, m.best_chain_slot, m.best_chain_slot, f);
    }
    assert(same_shape(m.slots, w.slots));
    let n = slot_update(o, s);
    assert forall|k: u64| #[trigger] n.slots.contains_key(k) implies (n.slots[k].parent matches Some(
        p,
    ) ==> p < k) by {
        assert(w.slots.contains_key(k));
        assert(m.slots.contains_key(k));
    }
}

/// The walk through parents from `s` reaches `k` within `fuel` steps: `s`
/// is kept, and is `k`, or is not finalized and has a parent from which the
/// walk reaches `k`.
pub open spec fn walk_reaches(m: Map<u64, SlotData>, s: u64, k: u64, fuel: nat) -> bool
    decreases fuel,
{
    m.contains_key(s) && (s == k || (m[s].status != SlotStatus::Finalized && match m[s].parent {
        None => false,
        Some(p) => fuel > 0 && walk_reaches(m, p, k, (fuel - 1) as nat),
    }))
}

proof fn lemma_walk_reaches_shape(m1: Map<u64, SlotData>, m2: Map<u64, SlotData>, s: u64, k: u64, f: nat)
    requires
        m1.dom() == m2.dom(),
        forall|x: u64| #[trigger] m1.contains_key(x) ==> m1[x].parent == m2[x].parent && m1[x].status
            == m2[x].status,
        walk_reaches(m1, s, k, f),
    ensures
        walk_reaches(m2, s, k, f),
    decreases f,
{
    assert(m2.contains_key(s));
    if s != k {
        if let Some(p) = m1[s].parent {
            lemma_walk_reaches_shape(m1, m2, p, k, (f - 1) as nat);
        }
    }
}

proof fn lemma_walk_reaches_within(m: Map<u64, SlotData>, s: u64, k: u64, n: nat, f: nat)
    requires
        walk_reaches(m, s, k, n),
        walk_stops(m, s, f),
    ensures
        walk_reaches(m, s, k, f),
    decreases n,
{
    if s != k {
        if let Some(p) = m[s].parent {
            lemma_walk_reaches_within(m, p, k, (n - 1) as nat, (f - 1) as nat);
        }
    }
}

proof fn lemma_mark_chain_values(m: Map<u64, SlotData>, s: u64, best: u64, f: nat, k: u64)
    requires
        m.contains_key(k),
    ensures
        mark_chain(m, s, best, f).contains_key(k),
        mark_chain(m, s, best, f)[k].chain == best || mark_chain(m, s, best, f)[k].chain == m[k].chain,
    decreases f,
{
    if m.contains_key(s) {
        let d = m[s];
        let m2 = m.insert(s, SlotData { slot: d.slot, parent: d.parent, status: d.status, chain: best });
        if d.status != SlotStatus::Finalized {
            if let Some(p) = d.parent {
                if f > 0 {
                    lemma_mark_chain_values(m2, p, best, (f - 1) as nat, k);
                }
            }
        }
    }
}

proof fn lemma_mark_chain_reached(m: Map<u64, SlotData>, s: u64, best: u64, f: nat, k: u64)
    requires
        walk_reaches(m, s, k, f),
    ensures
        mark_chain(m, s, best, f).contains_key(k),
        mark_chain(m, s, best, f)[k].chain == best,
    decreases f,
{
    let d = m[s];
    let m2 = m.insert(s, SlotData { slot: d.slot, parent: d.parent, status: d.status, chain: best });
    if s == k {
        if d.status != SlotStatus::Finalized {
            if let Some(p) = d.parent {
                if f > 0 {
                    lemma_mark_chain_values(m2, p, best, (f - 1) as nat, k);
                }
            }
        }
    } else {
        let p = d.parent->0;
        assert(m2.dom() =~= m.dom());
        lemma_walk_reaches_shape(m, m2, p, k, (f - 1) as nat);
        lemma_mark_chain_reached(m2, p, best, (f - 1) as nat, k);
    }
}

proof fn lemma_walk_reaches_kept(m: Map<u64, SlotData>, s: u64, k: u64, f: nat)
    requires
        walk_reaches(m, s, k, f),
    ensures
        m.contains_key(k),
    decreases f,
{
    if s != k {
        lemma_walk_reaches_kept(m, m[s].parent->0, k, (f - 1) as nat);
    }
}

proof fn lemma_walk_reaches_pruned(m: Map<u64, SlotData>, rooted: u64, s: u64, k: u64, f: nat)
    requires
        walk_reaches(prune_slots(m, rooted), s, k, f),
    ensures
        walk_reaches(m, s, k, f),
    decreases f,
{
    if s != k {
        if let Some(p) = m[s].parent {
            lemma_walk_reaches_pruned(m, rooted, p, k, (f - 1) as nat);
        }
    }
}

/// After an update that moves the best chain or gives a known slot a new
/// parent, every slot that the walk from the best chain slot through
/// parents reaches, down to the first finalized slot, is marked as being on
/// the best chain.
pub proof fn law_best_chain_marked(o: ChainDataView, s: SlotData, k: u64, n: nat)
    requires
        o.wf(),
        update_walk_terminates(o, s),
        walk_needed(o, s),
        walk_reaches(slot_update(o, s).slots, slot_update(o, s).best_chain_slot, k, n),
    ensures
        slot_update(o, s).slots[k].chain == slot_update(o, s).best_chain_slot,
{
    let m = after_merge(o, s);
    let w = after_walk(o, s);
    let u = slot_update(o, s);
    let best = m.best_chain_slot;
    let f = walk_fuel(m.slots, best);
    assert(walk_stops(m.slots, best, f));
    if is_new_rooted_head(o, s) {
        lemma_walk_reaches_pruned(w.slots, w.newest_rooted_slot, best, k, n);
    }
    assert(walk_reaches(w.slots, best, k, n));
    lemma_mark_chain_shape(m.slots, best, best, f);
    lemma_walk_reaches_shape(w.slots, m.slots, best, k, n);
    lemma_walk_reaches_within(m.slots, best, k, n, f);
    lemma_mark_chain_reached(m.slots, best, best, f, k);
    assert(w.slots == mark_chain(m.slots, best, best, f));
    assert(u.best_chain_slot == best);
    assert(w.slots.contains_key(k));
    if is_new_rooted_head(o, s) {
        lemma_walk_reaches_kept(u.slots, best, k, n);
        assert(u.slots[k] == w.slots[k]);
    }
}

/// Byte-wise equality of two addresses.
pub fn keys_equal(a: &Pubkey, b: &Pubkey) -> (r: bool)
    ensures
        r == (*a == *b),
{
    let mut i: usize = 0;
    while i < 32
        invariant
            i <= 32,
            forall|j: int| 0 <= j < i ==> a@[j] == b@[j],
        decreases 32 - i,
    {
        if a[i] != b[i] {
            return false;
        }
        i = i + 1;
    }
    assert(*a =~= *b);
    true
}

} // verus!
