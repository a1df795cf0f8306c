use openbook_simulation::chain_data::{AccountData, AccountState, SlotStatus};
use openbook_simulation::feed::SlotUpdate;
use openbook_simulation::filter::{AccountWriteRoute, KeeperFilter};

fn write(slot: u64, write_version: u64) -> AccountData {
    AccountData {
        slot,
        write_version,
        account: AccountState {
            lamports: 1,
            data: vec![slot as u8],
            owner: [0u8; 32],
            executable: false,
            rent_epoch: 0,
        },
    }
}

fn filter() -> KeeperFilter {
    KeeperFilter::new(vec![
        AccountWriteRoute { matched_pubkeys: vec![[1u8; 32], [2u8; 32]], timeout_interval_ms: 0 },
        AccountWriteRoute { matched_pubkeys: vec![[2u8; 32]], timeout_interval_ms: 500 },
    ])
}

#[test]
fn writes_of_unwatched_accounts_are_skipped() {
    let mut f = filter();
    let w = write(5, 0);
    assert!(f.accepts(&[9u8; 32], &w));
    assert!(!f.on_account_write([9u8; 32], w));
    assert!(f.delivery(0, &[9u8; 32], 0).is_none());
    assert!(f.on_account_write([1u8; 32], write(5, 0)));
    assert_eq!(f.delivery(0, &[1u8; 32], 0).map(|a| a.slot), Some(5));
}

#[test]
fn an_accepted_write_is_not_delivered_again() {
    let mut f = filter();
    assert_eq!(f.route_count(), 2);
    assert_eq!(f.route_pubkeys(1), &vec![[2u8; 32]]);
    assert!(f.on_account_write([2u8; 32], write(5, 0)));
    let d = f.delivery(0, &[2u8; 32], 10).expect("first delivery");
    let (slot, version) = (d.slot, d.write_version);
    f.record_delivered(&[2u8; 32], slot, version, 10);
    // neither route gets the same write again, however late
    assert!(f.delivery(0, &[2u8; 32], 10_000).is_none());
    assert!(f.delivery(1, &[2u8; 32], 10_000).is_none());
    // a newer write goes to the route without timeout at once, to the
    // other one after its timeout
    assert!(f.on_account_write([2u8; 32], write(6, 0)));
    assert_eq!(f.delivery(0, &[2u8; 32], 11).map(|a| a.slot), Some(6));
    assert!(f.delivery(1, &[2u8; 32], 509).is_none());
    assert_eq!(f.delivery(1, &[2u8; 32], 510).map(|a| a.slot), Some(6));
}

#[test]
fn slot_updates_decide_which_write_is_live() {
    let mut f = filter();
    let s = SlotUpdate { slot: 5, parent: Some(4), status: SlotStatus::Processed };
    assert!(f.can_take_slot_update(&s));
    f.on_slot_update(s);
    assert!(f.on_account_write([1u8; 32], write(5, 0)));
    assert_eq!(f.delivery(0, &[1u8; 32], 0).map(|a| a.slot), Some(5));
    // slot 7 forks at 4: the write at slot 5 is on an uncle
    f.on_slot_update(SlotUpdate { slot: 7, parent: Some(4), status: SlotStatus::Processed });
    assert!(f.delivery(0, &[1u8; 32], 0).is_none());
}
