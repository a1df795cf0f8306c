use openbook_simulation::chain_data::{AccountData, AccountState, SlotStatus};
use openbook_simulation::feed::{
    event_queues, is_watched, pair_snapshot_accounts, slot_update_from_rpc, snapshot_due,
    snapshot_source, snapshot_writes, try_snapshot_writes, AccountWrite, FilterConfig,
    KeeperConfig, RpcSlotUpdate, SnapshotSource, SourceConfig, WriteThrottle,
};
use openbook_simulation::openbook_config::{KeypairBytes, Obv2Config, Obv2Market};

fn state(lamports: u64, data: Vec<u8>) -> AccountState {
    AccountState { lamports, data, owner: [3u8; 32], executable: false, rent_epoch: 4 }
}

fn data(slot: u64, write_version: u64) -> AccountData {
    AccountData { slot, write_version, account: state(1, vec![]) }
}

fn address(k: u8) -> String {
    solana_sdk::pubkey::Pubkey::new_from_array([k; 32]).to_string()
}

#[test]
fn rpc_slot_events_become_slot_updates() {
    let u = slot_update_from_rpc(RpcSlotUpdate::CreatedBank { slot: 10, parent: 9 }).unwrap();
    assert_eq!((u.slot, u.parent, u.status), (10, Some(9), SlotStatus::Processed));
    let u = slot_update_from_rpc(RpcSlotUpdate::OptimisticConfirmation { slot: 11 }).unwrap();
    assert_eq!((u.slot, u.parent, u.status), (11, None, SlotStatus::Confirmed));
    let u = slot_update_from_rpc(RpcSlotUpdate::Root { slot: 12 }).unwrap();
    assert_eq!((u.slot, u.parent, u.status), (12, None, SlotStatus::Finalized));
    assert!(slot_update_from_rpc(RpcSlotUpdate::Other).is_none());
}

#[test]
fn an_account_write_is_selected_and_keeps_its_fields() {
    let w = AccountWrite::from([1u8; 32], 5, 2, state(77, vec![1, 2]));
    assert_eq!(w.pubkey, [1u8; 32]);
    assert_eq!(w.slot, 5);
    assert_eq!(w.write_version, 2);
    assert_eq!(w.lamports, 77);
    assert_eq!(w.owner, [3u8; 32]);
    assert_eq!(w.rent_epoch, 4);
    assert_eq!(w.data, vec![1, 2]);
    assert!(w.is_selected);
    let d = w.to_account_data();
    assert_eq!((d.slot, d.write_version), (5, 2));
    assert_eq!(d.account.lamports, 77);
    assert_eq!(d.account.data, vec![1, 2]);
}

#[test]
fn snapshots_read_listed_accounts_first() {
    let both = FilterConfig { program_ids: vec!["p".to_string()], account_ids: vec!["a".to_string()] };
    assert_eq!(snapshot_source(&both), SnapshotSource::MultipleAccounts);
    let program = FilterConfig { program_ids: vec!["p".to_string()], account_ids: vec![] };
    assert_eq!(snapshot_source(&program), SnapshotSource::ProgramAccounts);
    let none = FilterConfig { program_ids: vec![], account_ids: vec![] };
    assert_eq!(snapshot_source(&none), SnapshotSource::Invalid);
}

#[test]
fn snapshot_accounts_pair_with_their_ids() {
    let ids = vec!["a".to_string(), "b".to_string(), "c".to_string()];
    let r = pair_snapshot_accounts(&ids, vec![Some(1), None, Some(3)]);
    assert_eq!(r, vec![("a".to_string(), Some(1)), ("b".to_string(), None), ("c".to_string(), Some(3))]);
    let short = pair_snapshot_accounts(&ids, vec![Some(1)]);
    assert_eq!(short, vec![("a".to_string(), Some(1))]);
}

#[test]
fn snapshots_are_taken_every_five_minutes() {
    assert!(snapshot_due(None, 0));
    assert!(!snapshot_due(Some(1_000), 300_999));
    assert!(snapshot_due(Some(1_000), 301_000));
    assert!(!snapshot_due(Some(5_000), 1_000));
}

#[test]
fn snapshot_writes_skip_empty_accounts() {
    let accounts = vec![
        (address(1), Some(state(10, vec![1]))),
        (address(2), None),
        (address(3), Some(state(30, vec![3, 3]))),
    ];
    let ws = snapshot_writes(44, accounts);
    assert_eq!(ws.len(), 2);
    assert_eq!(ws[0].pubkey, [1u8; 32]);
    assert_eq!(ws[0].slot, 44);
    assert_eq!(ws[0].write_version, 0);
    assert_eq!(ws[0].lamports, 10);
    assert_eq!(ws[1].pubkey, [3u8; 32]);
    assert_eq!(ws[1].data, vec![3, 3]);
}

#[test]
fn a_snapshot_with_a_bad_address_is_refused() {
    let ok = vec![(address(1), Some(state(10, vec![]))), ("bad".to_string(), None)];
    assert_eq!(try_snapshot_writes(1, ok).map(|w| w.len()), Some(1));
    let bad = vec![(address(1), Some(state(10, vec![]))), ("bad".to_string(), Some(state(1, vec![])))];
    assert!(try_snapshot_writes(1, bad).is_none());
}

#[test]
fn keeper_sources_and_filters() {
    let config = KeeperConfig {
        program_id: [0u8; 32],
        rpc_url: "http://rpc".to_string(),
        websocket_url: "ws://rpc".to_string(),
    };
    let s = SourceConfig::for_keeper(&config);
    assert_eq!(s.dedup_queue_size, 0);
    assert_eq!(s.rpc_http_url, "http://rpc");
    assert_eq!(s.rpc_ws_url, "ws://rpc");
    assert_eq!(s.program_id, "11111111111111111111111111111111");
    let f = FilterConfig::for_keeper(&[0u8; 32], &vec![[1u8; 32], [2u8; 32]]);
    assert_eq!(f.program_ids, vec!["11111111111111111111111111111111".to_string()]);
    assert_eq!(f.account_ids, vec![address(1), address(2)]);
}

#[test]
fn event_queues_follow_the_markets() {
    let market = |q: u8| Obv2Market {
        name: String::new(),
        admin: KeypairBytes { bytes: vec![] },
        market_pk: [0u8; 32],
        oracle: [0u8; 32],
        asks: [0u8; 32],
        bids: [0u8; 32],
        event_queue: [q; 32],
        base_vault: [0u8; 32],
        quote_vault: [0u8; 32],
        base_mint: [0u8; 32],
        quote_mint: [0u8; 32],
        market_index: 0,
        price: 0,
    };
    let c = Obv2Config { programs: vec![], users: vec![], mints: vec![], markets: vec![market(5), market(6)] };
    assert_eq!(event_queues(&c), vec![[5u8; 32], [6u8; 32]]);
    assert!(is_watched(&event_queues(&c), &[6u8; 32]));
    assert!(!is_watched(&event_queues(&c), &[7u8; 32]));
}

#[test]
fn a_handed_on_write_is_not_repeated() {
    let mut t = WriteThrottle::new();
    let pk = [1u8; 32];
    assert!(t.should_process(&pk, &data(5, 1), 0, 1_000));
    t.record_processed(&pk, 5, 1, 100);
    // the same write is never handed on again
    assert!(!t.should_process(&pk, &data(5, 1), 100, 0));
    assert!(!t.should_process(&pk, &data(5, 1), 1_000_000, 1_000));
    // a new write waits for the timeout
    assert!(!t.should_process(&pk, &data(6, 0), 1_099, 1_000));
    assert!(t.should_process(&pk, &data(6, 0), 1_100, 1_000));
    // other accounts are not affected
    assert!(t.should_process(&[2u8; 32], &data(5, 1), 100, 1_000));
}
