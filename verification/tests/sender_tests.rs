use openbook_simulation::cli::Args;
use openbook_simulation::helpers::{
    fresh_blockhash, keep_waiting_for_blockhash, BlockhashPoller, TransactionBatcher,
};
use openbook_simulation::states::TransactionSendRecord;
use openbook_simulation::stats::OpenbookV2SimulationStats;
use openbook_simulation::tpu::{count_sent_batch, TpuErrorCounter};

fn record(is_consume_event: bool) -> TransactionSendRecord {
    TransactionSendRecord {
        signature: [0u8; 64],
        sent_at: 0,
        sent_slot: 1,
        user: None,
        market: None,
        is_consume_event,
        priority_fees: 0,
    }
}

#[test]
fn the_tpu_client_is_rebuilt_on_the_sixth_failure() {
    let mut c = TpuErrorCounter::new();
    for _ in 0..5 {
        assert!(!c.record_error());
    }
    assert_eq!(c.error_count(), 5);
    assert!(c.record_error());
    c.record_reset();
    assert_eq!(c.error_count(), 0);
    assert!(!c.after_batch(true));
    assert_eq!(c.error_count(), 0);
    assert!(!c.after_batch(false));
    assert_eq!(c.error_count(), 1);
}

#[test]
fn a_sent_batch_is_counted_by_kind() {
    let mut s = OpenbookV2SimulationStats::new(1, 1, 1);
    count_sent_batch(&mut s, &vec![record(true), record(false), record(false), record(true)]);
    assert_eq!(s.counters().num_sent, 4);
    assert_eq!(s.counters().num_consume_events_txs, 2);
    assert_eq!(s.counters().num_users_txs, 2);
    count_sent_batch(&mut s, &vec![]);
    assert_eq!(s.counters().num_sent, 4);
}

#[test]
fn consume_event_records_name_their_market() {
    let r = TransactionSendRecord::for_consume_events([1u8; 64], 1_700, 42, [5u8; 32], 9);
    assert_eq!(r.signature, [1u8; 64]);
    assert_eq!(r.sent_at, 1_700);
    assert_eq!(r.sent_slot, 42);
    assert_eq!(r.user, None);
    assert_eq!(r.market, Some([5u8; 32]));
    assert!(r.is_consume_event);
    assert_eq!(r.priority_fees, 9);
}

#[test]
fn only_a_different_blockhash_is_taken() {
    assert_eq!(fresh_blockhash(Some([2u8; 32]), &[1u8; 32]), Some([2u8; 32]));
    assert_eq!(fresh_blockhash(Some([1u8; 32]), &[1u8; 32]), None);
    assert_eq!(fresh_blockhash(None, &[1u8; 32]), None);
}

#[test]
fn a_blockhash_wait_lasts_five_seconds() {
    assert!(keep_waiting_for_blockhash(1_000, 1_000));
    assert!(keep_waiting_for_blockhash(1_000, 5_999));
    assert!(!keep_waiting_for_blockhash(1_000, 6_000));
}

#[test]
fn polling_stops_after_two_minutes_without_a_new_blockhash() {
    let mut p = BlockhashPoller::new(0);
    assert!(p.after_round(false, 120_999));
    assert!(p.after_round(true, 121_000));
    assert!(p.after_round(false, 241_999));
    assert!(!p.after_round(false, 242_000));
}

#[test]
fn batches_keep_the_order_and_the_size() {
    let mut b: TransactionBatcher<u32> = TransactionBatcher::new(3);
    assert!(b.take_batch().is_none());
    for i in 0..3 {
        assert!(b.wants_more());
        b.push(i);
    }
    assert!(!b.wants_more());
    assert_eq!(b.take_batch(), Some(vec![0, 1, 2]));
    assert!(b.wants_more());
    b.push(3);
    assert_eq!(b.take_batch(), Some(vec![3]));
    assert!(b.take_batch().is_none());
}

#[test]
fn defaults_of_the_command_line() {
    let a = Args::with_defaults("config.json".to_string());
    assert_eq!(a.rpc_url, "http://127.0.0.1:8899");
    assert_eq!(a.ws_url, "ws://127.0.0.1:8900");
    assert_eq!(a.fanout_size, 16);
    assert_eq!(a.identity, "");
    assert_eq!(a.duration_in_seconds, 60);
    assert_eq!(a.quotes_per_seconds, 1);
    assert_eq!(a.simulation_configuration, "config.json");
    assert_eq!(a.transaction_save_file, "");
    assert_eq!(a.block_data_save_file, "");
    assert_eq!(a.keeper_authority, "");
    assert_eq!(a.transaction_retry_in_ms, 10);
}
