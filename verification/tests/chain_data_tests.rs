use openbook_simulation::chain_data::{
    AccountData, AccountLookupError, AccountState, ChainData, SlotData, SlotStatus,
};

fn write(slot: u64, write_version: u64, data: Vec<u8>) -> AccountData {
    AccountData {
        slot,
        write_version,
        account: AccountState {
            lamports: 1_000,
            data,
            owner: [9u8; 32],
            executable: false,
            rent_epoch: 0,
        },
    }
}

fn slot(slot: u64, parent: Option<u64>, status: SlotStatus) -> SlotData {
    SlotData { slot, parent, status, chain: 0 }
}

#[test]
fn unknown_account_is_not_found() {
    let c = ChainData::new();
    assert!(matches!(c.account(&[1u8; 32]), Err(AccountLookupError::NotFound)));
    assert_eq!(c.newest_rooted_slot(), 0);
    assert_eq!(c.newest_processed_slot(), 0);
    assert_eq!(c.best_chain_slot(), 0);
    assert_eq!(c.account_versions_stored(), 0);
    assert_eq!(c.account_bytes_stored(), 0);
}

#[test]
fn read_after_write_gives_the_write() {
    let mut c = ChainData::new();
    let pk = [1u8; 32];
    assert!(c.can_store_write(3));
    c.update_account(pk, write(5, 1, vec![1, 2, 3]));
    let w = c.account(&pk).expect("live write");
    assert_eq!(w.slot, 5);
    assert_eq!(w.write_version, 1);
    assert_eq!(w.account.data, vec![1, 2, 3]);
    assert_eq!(c.account_versions_stored(), 1);
    assert_eq!(c.account_bytes_stored(), 3);
}

#[test]
fn newest_live_write_wins_and_writes_stay_ordered() {
    let mut c = ChainData::new();
    let pk = [2u8; 32];
    c.update_account(pk, write(8, 0, vec![8]));
    c.update_account(pk, write(6, 0, vec![6, 6]));
    assert_eq!(c.account_versions_stored(), 2);
    assert_eq!(c.account_bytes_stored(), 3);
    let w = c.account(&pk).expect("live write");
    assert_eq!((w.slot, w.write_version), (8, 0));
}

#[test]
fn a_write_at_a_stored_slot_overwrites_an_older_version() {
    let mut c = ChainData::new();
    let pk = [2u8; 32];
    c.update_account(pk, write(8, 0, vec![8]));
    c.update_account(pk, write(8, 1, vec![9]));
    // written over, not added
    assert_eq!(c.account_versions_stored(), 1);
    let w = c.account(&pk).expect("live write");
    assert_eq!((w.slot, w.write_version), (8, 1));
    assert_eq!(w.account.data, vec![9]);
    // an older version at the same slot is ignored
    c.update_account(pk, write(8, 0, vec![7]));
    assert_eq!(c.account_versions_stored(), 1);
    let w = c.account(&pk).expect("live write");
    assert_eq!((w.write_version, w.account.data.clone()), (1, vec![9]));
    // the same version writes over
    c.update_account(pk, write(8, 1, vec![5]));
    assert_eq!(c.account(&pk).expect("live write").account.data, vec![5]);
}

#[test]
fn slot_updates_raise_heads() {
    let mut c = ChainData::new();
    let s = slot(5, Some(4), SlotStatus::Processed);
    assert!(c.can_update_slot(&s));
    c.update_slot(s);
    assert_eq!(c.newest_processed_slot(), 5);
    assert_eq!(c.best_chain_slot(), 5);
    assert_eq!(c.newest_rooted_slot(), 0);
    // a slot without a parent does not move the best chain
    c.update_slot(slot(9, None, SlotStatus::Confirmed));
    assert_eq!(c.newest_processed_slot(), 9);
    assert_eq!(c.best_chain_slot(), 5);
    // an older slot moves nothing
    c.update_slot(slot(3, Some(2), SlotStatus::Processed));
    assert_eq!(c.newest_processed_slot(), 9);
    assert_eq!(c.best_chain_slot(), 5);
}

#[test]
fn write_on_an_uncle_slot_is_not_live() {
    let mut c = ChainData::new();
    let pk = [3u8; 32];
    c.update_slot(slot(5, Some(4), SlotStatus::Processed));
    c.update_account(pk, write(5, 0, vec![1]));
    c.update_slot(slot(6, Some(5), SlotStatus::Processed));
    assert_eq!(c.account(&pk).expect("on the best chain").slot, 5);
    // slot 7 forks off at slot 4: slot 5 is now an uncle
    c.update_slot(slot(7, Some(4), SlotStatus::Processed));
    assert_eq!(c.best_chain_slot(), 7);
    assert!(matches!(c.account(&pk), Err(AccountLookupError::NoLiveData)));
}

#[test]
fn rooting_prunes_writes_below_the_root() {
    let mut c = ChainData::new();
    let pk = [4u8; 32];
    c.update_slot(slot(5, Some(4), SlotStatus::Processed));
    c.update_account(pk, write(5, 0, vec![1]));
    c.update_slot(slot(6, Some(5), SlotStatus::Processed));
    c.update_slot(slot(7, Some(4), SlotStatus::Processed));
    c.update_account(pk, write(8, 0, vec![2, 2]));
    assert_eq!(c.account_versions_stored(), 2);
    let root = slot(7, None, SlotStatus::Finalized);
    assert!(c.can_update_slot(&root));
    c.update_slot(root);
    assert_eq!(c.newest_rooted_slot(), 7);
    // the uncle write at slot 5 is dropped, the write above the root stays
    assert_eq!(c.account_versions_stored(), 1);
    assert_eq!(c.account_bytes_stored(), 2);
    assert_eq!(c.account(&pk).expect("write above the root").slot, 8);
}

#[test]
fn rooting_keeps_the_newest_rooted_write() {
    let mut c = ChainData::new();
    let pk = [5u8; 32];
    c.update_slot(slot(3, Some(2), SlotStatus::Processed));
    c.update_account(pk, write(2, 0, vec![1]));
    c.update_account(pk, write(3, 0, vec![2]));
    c.update_slot(slot(4, Some(3), SlotStatus::Processed));
    c.update_slot(slot(4, None, SlotStatus::Finalized));
    assert_eq!(c.newest_rooted_slot(), 4);
    // slot 3 is on the best chain and below the root: its write is the
    // newest rooted one and is kept; the older one is dropped
    assert_eq!(c.account_versions_stored(), 1);
    assert_eq!(c.account(&pk).expect("rooted write").slot, 3);
}

#[test]
fn status_never_decreases() {
    let mut c = ChainData::new();
    let pk = [6u8; 32];
    c.update_slot(slot(5, Some(4), SlotStatus::Finalized));
    c.update_account(pk, write(5, 0, vec![]));
    // a later processed notice for slot 5 does not undo its finality
    c.update_slot(slot(5, Some(4), SlotStatus::Processed));
    c.update_slot(slot(9, Some(8), SlotStatus::Processed));
    // slot 5 stays finalized, so its write stays live off the best chain
    assert_eq!(c.account(&pk).expect("rooted write").slot, 5);
}

#[test]
fn a_parent_cycle_is_refused_before_the_walk() {
    let mut c = ChainData::new();
    c.update_slot(slot(5, Some(6), SlotStatus::Processed));
    let s = slot(6, Some(5), SlotStatus::Processed);
    assert!(!c.can_update_slot(&s));
}

#[test]
fn a_cycle_off_the_best_chain_does_not_block_updates() {
    let mut c = ChainData::new();
    c.update_slot(slot(10, Some(9), SlotStatus::Processed));
    c.update_slot(slot(5, Some(6), SlotStatus::Processed));
    let s = slot(6, Some(5), SlotStatus::Processed);
    // slot 6 is below the best chain and new: no walk is needed
    assert!(c.can_update_slot(&s));
    c.update_slot(s);
    let again = slot(5, Some(6), SlotStatus::Confirmed);
    assert!(c.can_update_slot(&again));
    c.update_slot(again);
    // a new parent for slot 5 walks from the best chain, which does not
    // reach the cycle
    let moved = slot(5, Some(7), SlotStatus::Processed);
    assert!(c.can_update_slot(&moved));
    c.update_slot(moved);
    assert_eq!(c.best_chain_slot(), 10);
}

#[test]
fn a_slot_below_the_root_is_not_kept() {
    let mut c = ChainData::new();
    let pk = [8u8; 32];
    c.update_slot(slot(10, None, SlotStatus::Finalized));
    assert_eq!(c.newest_rooted_slot(), 10);
    assert_eq!(c.best_chain_slot(), 0);
    let below = slot(5, Some(4), SlotStatus::Processed);
    assert!(c.can_update_slot(&below));
    c.update_slot(below);
    assert_eq!(c.newest_processed_slot(), 10);
    assert_eq!(c.newest_rooted_slot(), 10);
    // the best chain still moves to a slot with a known parent above it
    assert_eq!(c.best_chain_slot(), 5);
    // a write at slot 5 is read as rooted history: slot 5 is not kept
    c.update_account(pk, write(5, 0, vec![1]));
    assert_eq!(c.account(&pk).expect("rooted write").slot, 5);
}

#[test]
fn a_write_is_live_again_when_its_fork_becomes_best() {
    let mut c = ChainData::new();
    let pk = [12u8; 32];
    c.update_slot(slot(5, Some(4), SlotStatus::Processed));
    c.update_account(pk, write(5, 0, vec![1]));
    c.update_slot(slot(6, Some(5), SlotStatus::Processed));
    c.update_slot(slot(7, Some(4), SlotStatus::Processed));
    assert!(matches!(c.account(&pk), Err(AccountLookupError::NoLiveData)));
    // slot 8 extends 6 -> 5: the walk from 8 marks slot 5 as best chain again
    c.update_slot(slot(8, Some(6), SlotStatus::Processed));
    assert_eq!(c.best_chain_slot(), 8);
    assert_eq!(c.account(&pk).expect("back on the best chain").slot, 5);
}
