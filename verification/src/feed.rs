//! The account and slot feed of the keeper: which sources to read, how RPC
//! updates become account writes and slot updates, which writes matter, and
//! when a changed account is handed on.
use crate::chain_data::{keys_equal, AccountData, AccountState, Pubkey, SlotStatus};
use crate::openbook_config::{address_from_str, parsed, parses, try_convert_to_pk, convert_to_pk, Obv2Config};
use vstd::prelude::*;

verus! {

/// Where the keeper sends its transactions and reads its updates.
#[derive(Clone, Debug)]
pub struct KeeperConfig {
    pub program_id: Pubkey,
    pub rpc_url: String,
    pub websocket_url: String,
}

/// The RPC endpoints and program that updates are read from.
#[derive(Clone, Debug)]
pub struct SourceConfig {
    pub dedup_queue_size: usize,
    pub rpc_http_url: String,
    pub program_id: String,
    pub rpc_ws_url: String,
}

/// The accounts, or else the programs, whose accounts a snapshot reads.
#[derive(Clone, Debug)]
pub struct FilterConfig {
    pub program_ids: Vec<String>,
    pub account_ids: Vec<String>,
}

/// A slot event of the update stream.
#[derive(Clone, Copy, Debug)]
pub struct SlotUpdate {
    pub slot: u64,
    pub parent: Option<u64>,
    pub status: SlotStatus,
}

/// A write to an account, as received.
#[derive(Clone, Debug)]
pub struct AccountWrite {
    pub pubkey: Pubkey,
    pub slot: u64,
    pub write_version: u64,
    pub lamports: u64,
    pub owner: Pubkey,
    pub executable: bool,
    pub rent_epoch: u64,
    pub data: Vec<u8>,
    pub is_selected: bool,
}

/// The slot updates of the RPC node that the feed uses; the others are
/// `Other`.
#[derive(Clone, Copy, Debug)]
pub enum RpcSlotUpdate {
    CreatedBank { slot: u64, parent: u64 },
    OptimisticConfirmation { slot: u64 },
    Root { slot: u64 },
    Other,
}

/// What `Display` of `solana_sdk::pubkey::Pubkey` writes for `pk`: its
/// base58 form.
pub uninterp spec fn address_string(pk: [u8; 32]) -> Seq<char>;

/// `Display` of `solana_sdk::pubkey::Pubkey` (`to_string`). Claimed: the
/// text depends on the address alone, and `Pubkey::from_str` parses it back
/// to the address (the text is the base58 encoding of the 32 bytes, at most
/// 44 characters, which `from_str` decodes).
#[verifier::external_body]
fn address_to_string(pk: &Pubkey) -> (r: String)
    ensures
        r@ == address_string(*pk),
        address_from_str(r@) == Some(*pk),
{
    solana_sdk::pubkey::Pubkey::from(*pk).to_string()
}

/// The base58 form of an address; parsing it gives the address back.
pub fn pubkey_to_string(pk: &Pubkey) -> (r: String)
    ensures
        r@ == address_string(*pk),
        address_from_str(r@) == Some(*pk),
{
    address_to_string(pk)
}

/// The write of `account` to `pubkey` at `slot` and `write_version`,
/// selected.
pub open spec fn write_of(pubkey: Pubkey, slot: u64, write_version: u64, account: AccountState) -> AccountWrite {
    AccountWrite {
        pubkey,
        slot,
        write_version,
        lamports: account.lamports,
        owner: account.owner,
        executable: account.executable,
        rent_epoch: account.rent_epoch,
        data: account.data,
        is_selected: true,
    }
}

impl AccountWrite {
    /// A write of `account` to `pubkey` at `slot` and `write_version`,
    /// selected.
    pub fn from(pubkey: Pubkey, slot: u64, write_version: u64, account: AccountState) -> (r:
        AccountWrite)
        ensures
            r == write_of(pubkey, slot, write_version, account),
    {
        AccountWrite {
            pubkey,
            slot,
            write_version,
            lamports: account.lamports,
            owner: account.owner,
            executable: account.executable,
            rent_epoch: account.rent_epoch,
            data: account.data,
            is_selected: true,
        }
    }

    /// The write as stored by `ChainData`.
    pub fn to_account_data(&self) -> (r: AccountData)
        ensures
            r.slot == self.slot,
            r.write_version == self.write_version,
            r.account.lamports == self.lamports,
            r.account.data@ == self.data@,
            r.account.owner == self.owner,
            r.account.executable == self.executable,
            r.account.rent_epoch == self.rent_epoch,
    {
        AccountData {
            slot: self.slot,
            write_version: self.write_version,
            account: AccountState {
                lamports: self.lamports,
                data: self.data.clone(),
                owner: self.owner,
                executable: self.executable,
                rent_epoch: self.rent_epoch,
            },
        }
    }
}

/// The slot update that an RPC slot event stands for: a created bank is
/// processed with a known parent, an optimistic confirmation confirmed, a
/// root finalized; other events stand for none.
pub open spec fn spec_slot_update_from_rpc(u: RpcSlotUpdate) -> Option<SlotUpdate> {
    match u {
        RpcSlotUpdate::CreatedBank { slot, parent } => Some(
            SlotUpdate { slot, parent: Some(parent), status: SlotStatus::Processed },
        ),
        RpcSlotUpdate::OptimisticConfirmation { slot } => Some(
            SlotUpdate { slot, parent: None, status: SlotStatus::Confirmed },
        ),
        RpcSlotUpdate::Root { slot } => Some(
            SlotUpdate { slot, parent: None, status: SlotStatus::Finalized },
        ),
        RpcSlotUpdate::Other => None,
    }
}

pub fn slot_update_from_rpc(u: RpcSlotUpdate) -> (r: Option<SlotUpdate>)
    ensures
        r == spec_slot_update_from_rpc(u),
{
    match u {
        RpcSlotUpdate::CreatedBank { slot, parent } => Some(
            SlotUpdate { slot, parent: Some(parent), status: SlotStatus::Processed },
        ),
        RpcSlotUpdate::OptimisticConfirmation { slot } => Some(
            SlotUpdate { slot, parent: None, status: SlotStatus::Confirmed },
        ),
        RpcSlotUpdate::Root { slot } => Some(
            SlotUpdate { slot, parent: None, status: SlotStatus::Finalized },
        ),
        RpcSlotUpdate::Other => None,
    }
}

/// The event queues of the configured markets, in order.
pub fn event_queues(config: &Obv2Config) -> (r: Vec<Pubkey>)
    ensures
        r@.len() == config.markets@.len(),
        forall|i: int| 0 <= i < r@.len() ==> #[trigger] r@[i] == config.markets@[i].event_queue,
{
    let mut r: Vec<Pubkey> = Vec::new();
    let mut i: usize = 0;
    while i < config.markets.len()
        invariant
            i <= config.markets@.len(),
            r@.len() == i,
            forall|j: int| 0 <= j < i ==> #[trigger] r@[j] == config.markets@[j].event_queue,
        decreases config.markets@.len() - i,
    {
        r.push(config.markets[i].event_queue);
        i = i + 1;
    }
    r
}

impl FilterConfig {
    /// Snapshots of the keeper read its event queues (and could fall back to
    /// its program).
    pub fn for_keeper(program_id: &Pubkey, event_queues: &Vec<Pubkey>) -> (r: FilterConfig)
        ensures
            r.program_ids@.len() == 1,
            r.program_ids@[0]@ == address_string(*program_id),
            r.account_ids@.len() == event_queues@.len(),
            forall|i: int|
                0 <= i < event_queues@.len() ==> (#[trigger] r.account_ids@[i])@ == address_string(
                    event_queues@[i],
                ),
    {
        let mut program_ids: Vec<String> = Vec::new();
        program_ids.push(pubkey_to_string(program_id));
        let mut account_ids: Vec<String> = Vec::new();
        let mut i: usize = 0;
        while i < event_queues.len()
            invariant
                i <= event_queues@.len(),
                account_ids@.len() == i,
                forall|j: int|
                    0 <= j < i ==> (#[trigger] account_ids@[j])@ == address_string(event_queues@[j]),
            decreases event_queues@.len() - i,
        {
            account_ids.push(pubkey_to_string(&event_queues[i]));
            i = i + 1;
        }
        FilterConfig { program_ids, account_ids }
    }
}

impl SourceConfig {
    /// The keeper reads its program's accounts from its RPC node, without
    /// deduplication.
    pub fn for_keeper(config: &KeeperConfig) -> (r: SourceConfig)
        ensures
            r.dedup_queue_size == 0,
            r.rpc_http_url == config.rpc_url,
            r.program_id@ == address_string(config.program_id),
            r.rpc_ws_url == config.websocket_url,
    {
        SourceConfig {
            dedup_queue_size: 0,
            rpc_http_url: config.rpc_url.clone(),
            program_id: pubkey_to_string(&config.program_id),
            rpc_ws_url: config.websocket_url.clone(),
        }
    }
}

/// How a snapshot is read.
#[derive(Clone, Copy, Debug, PartialEq, Eq, Structural)]
pub enum SnapshotSource {
    /// The listed accounts, one by one.
    MultipleAccounts,
    /// All accounts of the first listed program.
    ProgramAccounts,
    /// Nothing to read: the filter is invalid.
    Invalid,
}

pub fn snapshot_source(filter_config: &FilterConfig) -> (r: SnapshotSource)
    ensures
        r == (if filter_config.account_ids@.len() > 0 {
            SnapshotSource::MultipleAccounts
        } else if filter_config.program_ids@.len() > 0 {
            SnapshotSource::ProgramAccounts
        } else {
            SnapshotSource::Invalid
        }),
{
    if filter_config.account_ids.len() > 0 {
        SnapshotSource::MultipleAccounts
    } else if filter_config.program_ids.len() > 0 {
        SnapshotSource::ProgramAccounts
    } else {
        SnapshotSource::Invalid
    }
}

/// The requested account ids paired, in order, with the accounts that came
/// back; pairs stop where either list ends.
pub fn pair_snapshot_accounts<T>(ids: &Vec<String>, values: Vec<Option<T>>) -> (r: Vec<
    (String, Option<T>),
>)
    ensures
        r@.len() == if ids@.len() < values@.len() {
            ids@.len()
        } else {
            values@.len()
        },
        forall|i: int|
            0 <= i < r@.len() ==> (#[trigger] r@[i]).0 == ids@[i] && r@[i].1 == values@[i],
{
    let ghost vals = values@;
    let mut values = values;
    let mut r: Vec<(String, Option<T>)> = Vec::new();
    let mut i: usize = 0;
    while i < ids.len() && values.len() > 0
        invariant
            i <= ids@.len(),
            r@.len() == i,
            i + values@.len() == vals.len(),
            values@ == vals.skip(i as int),
            forall|j: int| 0 <= j < i ==> (#[trigger] r@[j]).0 == ids@[j] && r@[j].1 == vals[j],
        decreases ids@.len() - i,
    {
        let v = values.remove(0);
        proof {
            assert(v == vals[i as int]);
            assert(values@ =~= vals.skip(i + 1));
        }
        r.push((ids[i].clone(), v));
        i = i + 1;
    }
    r
}

/// How long, in milliseconds, a snapshot stays fresh.
pub const SNAPSHOT_INTERVAL_MS: u64 = 300_000;

/// Whether a new snapshot is due at `now_ms`: none was taken yet, or the
/// last one is five minutes old.
pub fn snapshot_due(last_snapshot_ms: Option<u64>, now_ms: u64) -> (r: bool)
    ensures
        r == match last_snapshot_ms {
            None => true,
            Some(t) => t + SNAPSHOT_INTERVAL_MS <= now_ms,
        },
{
    match last_snapshot_ms {
        None => true,
        Some(t) => t <= now_ms && now_ms - t >= SNAPSHOT_INTERVAL_MS,
    }
}

/// The account writes of a snapshot taken at `slot`: one at write version 0
/// for each account that came back, in order; accounts that came back
/// empty are left out.
pub open spec fn snapshot_writes_of(slot: u64, accounts: Seq<(String, Option<AccountState>)>) -> Seq<
    AccountWrite,
>
    decreases accounts.len(),
{
    if accounts.len() == 0 {
        Seq::empty()
    } else {
        let before = snapshot_writes_of(slot, accounts.drop_last());
        match accounts.last().1 {
            Some(a) => before.push(write_of(parsed(accounts.last().0), slot, 0, a)),
            None => before,
        }
    }
}

/// Every account that came back has a parsable address.
pub open spec fn snapshot_keys_parse(accounts: Seq<(String, Option<AccountState>)>) -> bool {
    forall|i: int| 0 <= i < accounts.len() && (#[trigger] accounts[i]).1 is Some ==> parses(accounts[i].0)
}

/// The account writes of a snapshot taken at `slot` (see
/// `snapshot_writes_of`), whose addresses are known to parse.
pub fn snapshot_writes(slot: u64, accounts: Vec<(String, Option<AccountState>)>) -> (r: Vec<AccountWrite>)
    requires
        snapshot_keys_parse(accounts@),
    ensures
        r@ == snapshot_writes_of(slot, accounts@),
{
    let ghost all = accounts@;
    let n: usize = accounts.len();
    let mut rest = accounts;
    let mut r: Vec<AccountWrite> = Vec::new();
    let mut i: usize = 0;
    proof {
        assert(all.take(0) =~= Seq::<(String, Option<AccountState>)>::empty());
    }
    while rest.len() > 0
        invariant
            i + rest@.len() == all.len(),
            all.len() == n,
            rest@ == all.skip(i as int),
            snapshot_keys_parse(all),
            r@ == snapshot_writes_of(slot, all.take(i as int)),
        decreases rest@.len(),
    {
        let (key, account) = rest.remove(0);
        proof {
            assert(all[i as int] == (key, account));
            assert(rest@ =~= all.skip(i + 1));
            let t1 = all.take(i + 1);
            assert(t1.drop_last() =~= all.take(i as int));
            assert(t1.last() == all[i as int]);
        }
        match account {
            Some(a) => {
                proof {
                    assert(all[i as int].1 is Some);
                }
                let pk = convert_to_pk(&key);
                r.push(AccountWrite::from(pk, slot, 0, a));
            },
            None => {},
        }
        i = i + 1;
    }
    assert(all.take(i as int) =~= all);
    r
}

/// The account writes of a snapshot taken at `slot`, or `None` when an
/// account that came back has an address that does not parse.
pub fn try_snapshot_writes(slot: u64, accounts: Vec<(String, Option<AccountState>)>) -> (r: Option<
    Vec<AccountWrite>,
>)
    ensures
        snapshot_keys_parse(accounts@) ==> (r matches Some(w) && w@ == snapshot_writes_of(slot, accounts@)),
        !snapshot_keys_parse(accounts@) ==> r is None,
{
    let mut i: usize = 0;
    while i < accounts.len()
        invariant
            i <= accounts@.len(),
            forall|j: int| 0 <= j < i && (#[trigger] accounts@[j]).1 is Some ==> parses(accounts@[j].0),
        decreases accounts@.len() - i,
    {
        if accounts[i].1.is_some() {
            if try_convert_to_pk(&accounts[i].0).is_none() {
                assert(accounts@[i as int].1 is Some && !parses(accounts@[i as int].0));
                return None;
            }
        }
        i = i + 1;
    }
    Some(snapshot_writes(slot, accounts))
}

/// The accounts of interest contain `pubkey`.
pub fn is_watched(watched: &Vec<Pubkey>, pubkey: &Pubkey) -> (r: bool)
    ensures
        r == watched@.contains(*pubkey),
{
    let mut i: usize = 0;
    while i < watched.len()
        invariant
            i <= watched@.len(),
            forall|j: int| 0 <= j < i ==> watched@[j] != *pubkey,
        decreases watched@.len() - i,
    {
        if keys_equal(&watched[i], pubkey) {
            assert(watched@[i as int] == *pubkey);
            return true;
        }
        i = i + 1;
    }
    false
}

/// When an account was last handed on, and at which write.
#[derive(Clone, Copy, Debug)]
pub struct AccountWriteRecord {
    pub slot: u64,
    pub write_version: u64,
    /// Milliseconds on the caller's monotonic clock.
    pub timestamp_ms: u64,
}

/// The last write handed on for each account.
pub struct WriteThrottle {
    last_updated: Vec<(Pubkey, AccountWriteRecord)>,
}

pub open spec fn distinct_records(s: Seq<(Pubkey, AccountWriteRecord)>) -> bool {
    forall|i: int, j: int| 0 <= i < s.len() && 0 <= j < s.len() && i != j ==> s[i].0 != s[j].0
}

/// The record of `pk`, if any.
pub open spec fn record_of(s: Seq<(Pubkey, AccountWriteRecord)>, pk: Pubkey) -> Option<
    AccountWriteRecord,
> {
    if exists|i: int| 0 <= i < s.len() && s[i].0 == pk {
        Some(s[choose|i: int| 0 <= i < s.len() && s[i].0 == pk].1)
    } else {
        None
    }
}

/// Whether the current write of an account is handed on: always the first
/// time; later only when it differs (by slot or write version) from the
/// last one handed on and at least `timeout_ms` passed since.
pub open spec fn spec_should_process(
    last: Option<AccountWriteRecord>,
    account: AccountData,
    now_ms: u64,
    timeout_ms: u64,
) -> bool {
    match last {
        None => true,
        Some(r) => {
            let unchanged = account.slot == r.slot && account.write_version == r.write_version;
            let elapsed = if now_ms >= r.timestamp_ms {
                now_ms - r.timestamp_ms
            } else {
                0
            };
            let throttled = elapsed < timeout_ms;
            !(unchanged || throttled)
        },
    }
}

impl WriteThrottle {
    pub closed spec fn records(&self) -> Seq<(Pubkey, AccountWriteRecord)> {
        self.last_updated@
    }

    pub open spec fn wf(&self) -> bool {
        distinct_records(self.records())
    }

    pub fn new() -> (r: Self)
        ensures
            r.wf(),
            r.records().len() == 0,
    {
        WriteThrottle { last_updated: Vec::new() }
    }

    fn find(&self, pk: &Pubkey) -> (r: Option<usize>)
        requires
            self.wf(),
        ensures
            match r {
                Some(i) => i < self.records().len() && self.records()[i as int].0 == *pk
                    && record_of(self.records(), *pk) == Some(self.records()[i as int].1),
                None => record_of(self.records(), *pk) is None,
            },
    {
        let mut i: usize = 0;
        while i < self.last_updated.len()
            invariant
                i <= self.last_updated@.len(),
                self.wf(),
                forall|j: int| 0 <= j < i ==> self.last_updated@[j].0 != *pk,
            decreases self.last_updated@.len() - i,
        {
            if keys_equal(&self.last_updated[i].0, pk) {
                proof {
                    let s = self.last_updated@;
                    assert(0 <= i < s.len() && s[i as int].0 == *pk);
                    let c = choose|c: int| 0 <= c < s.len() && s[c].0 == *pk;
                    assert(c == i);
                }
                return Some(i);
            }
            i = i + 1;
        }
        None
    }

    /// Whether `account`, the current write of `pubkey`, is handed on now
    /// (see `spec_should_process`).
    pub fn should_process(&self, pubkey: &Pubkey, account: &AccountData, now_ms: u64, timeout_ms: u64) -> (r: bool)
        requires
            self.wf(),
        ensures
            r == spec_should_process(record_of(self.records(), *pubkey), *account, now_ms, timeout_ms),
    {
        match self.find(pubkey) {
            None => true,
            Some(i) => {
                let record = &self.last_updated[i].1;
                let is_unchanged = account.slot == record.slot && account.write_version
                    == record.write_version;
                let elapsed = if now_ms >= record.timestamp_ms {
                    now_ms - record.timestamp_ms
                } else {
                    0
                };
                let is_throttled = elapsed < timeout_ms;
                !(is_unchanged || is_throttled)
            },
        }
    }

    /// Notes that the write of `pubkey` at `slot` and `write_version` was
    /// handed on at `now_ms`.
    pub fn record_processed(&mut self, pubkey: &Pubkey, slot: u64, write_version: u64, now_ms: u64)
        requires
            old(self).wf(),
        ensures
            final(self).wf(),
            record_of(final(self).records(), *pubkey) == Some(
                AccountWriteRecord { slot, write_version, timestamp_ms: now_ms },
            ),
            forall|k: Pubkey|
                k != *pubkey ==> #[trigger] record_of(final(self).records(), k) == record_of(
                    old(self).records(),
                    k,
                ),
    {
        let record = AccountWriteRecord { slot, write_version, timestamp_ms: now_ms };
        let ghost o = self.last_updated@;
        match self.find(pubkey) {
            Some(i) => {
                self.last_updated.set(i, (*pubkey, record));
                proof {
                    let s = self.last_updated@;
                    assert(s =~= o.update(i as int, (*pubkey, record)));
                    assert forall|x: int, y: int|
                        0 <= x < s.len() && 0 <= y < s.len() && x != y implies s[x].0 != s[y].0 by {
                        assert(s[x].0 == o[x].0 && s[y].0 == o[y].0);
                    }
                    assert(0 <= i < s.len() && s[i as int].0 == *pubkey);
                    let c = choose|c: int| 0 <= c < s.len() && s[c].0 == *pubkey;
                    assert(c == i);
                    assert forall|k: Pubkey| k != *pubkey implies #[trigger] record_of(s, k) == record_of(o, k) by {
                        if exists|j: int| 0 <= j < o.len() && o[j].0 == k {
                            let j = choose|j: int| 0 <= j < o.len() && o[j].0 == k;
                            assert(s[j].0 == k);
                            let cs = choose|c: int| 0 <= c < s.len() && s[c].0 == k;
                            assert(o[cs].0 == k);
                        }
                        if exists|j: int| 0 <= j < s.len() && s[j].0 == k {
                            let j = choose|j: int| 0 <= j < s.len() && s[j].0 == k;
                            assert(o[j].0 == k);
                        }
                    }
                }
            },
            None => {
                self.last_updated.push((*pubkey, record));
                proof {
                    let s = self.last_updated@;
                    assert(s =~= o.push((*pubkey, record)));
                    assert forall|x: int, y: int|
                        0 <= x < s.len() && 0 <= y < s.len() && x != y implies s[x].0 != s[y].0 by {
                        if x < o.len() && y < o.len() {
                            assert(s[x] == o[x] && s[y] == o[y]);
                        } else if x < o.len() {
                            assert(s[x] == o[x]);
                            assert(o[x].0 != *pubkey);
                        } else {
                            assert(s[y] == o[y]);
                            assert(o[y].0 != *pubkey);
                        }
                    }
                    let n = o.len() as int;
                    assert(0 <= n < s.len() && s[n].0 == *pubkey);
                    let c = choose|c: int| 0 <= c < s.len() && s[c].0 == *pubkey;
                    assert(c == n);
                    assert forall|k: Pubkey| k != *pubkey implies #[trigger] record_of(s, k) == record_of(o, k) by {
                        if exists|j: int| 0 <= j < o.len() && o[j].0 == k {
                            let j = choose|j: int| 0 <= j < o.len() && o[j].0 == k;
                            assert(s[j].0 == k);
                            let cs = choose|c: int| 0 <= c < s.len() && s[c].0 == k;
                            assert(o[cs].0 == k);
                        }
                        if exists|j: int| 0 <= j < s.len() && s[j].0 == k {
                            let j = choose|j: int| 0 <= j < s.len() && s[j].0 == k;
                            assert(o[j].0 == k);
                        }
                    }
                }
            },
        }
    }
}

/// An account's first write is handed on; after that, a write that differs
/// from the last one handed on, in slot or in write version, is handed on
/// as soon as the timeout has passed since that handing on, and a write
/// equal to it in both never is.
pub proof fn law_changed_write_handed_on_after_timeout(
    last: AccountWriteRecord,
    account: AccountData,
    now_ms: u64,
    timeout_ms: u64,
)
    ensures
        spec_should_process(None, account, now_ms, timeout_ms),
        (account.slot != last.slot || account.write_version != last.write_version) && now_ms
            >= last.timestamp_ms && now_ms - last.timestamp_ms >= timeout_ms ==> spec_should_process(
            Some(last),
            account,
            now_ms,
            timeout_ms,
        ),
        account.slot == last.slot && account.write_version == last.write_version
            ==> !spec_should_process(Some(last), account, now_ms, timeout_ms),
        now_ms >= last.timestamp_ms && now_ms - last.timestamp_ms < timeout_ms ==> !spec_should_process(
            Some(last),
            account,
            now_ms,
            timeout_ms,
        ),
{
}

/// Right after a write is handed on, the same write is not handed on again
/// (whatever the time), and no write is handed on within the timeout.
pub proof fn law_handed_on_write_not_repeated(
    pk: Pubkey,
    account: AccountData,
    other: AccountData,
    then_ms: u64,
    now_ms: u64,
    timeout_ms: u64,
)
    requires
        now_ms >= then_ms,
    ensures
        ({
            let r = AccountWriteRecord {
                slot: account.slot,
                write_version: account.write_version,
                timestamp_ms: then_ms,
            };
            &&& !spec_should_process(Some(r), account, now_ms, timeout_ms)
            &&& now_ms - then_ms < timeout_ms ==> !spec_should_process(Some(r), other, now_ms, timeout_ms)
        }),
{
}

} // verus!
