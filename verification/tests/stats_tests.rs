use openbook_simulation::states::TransactionConfirmRecord;
use openbook_simulation::stats::{
    percent_of, top_errors, wrapping_inc, ErrorCount, ErrorNormalizer, NACounters,
    OpenbookV2SimulationStats,
};

fn confirm_record(
    confirmed: bool,
    error: Option<&str>,
    is_consume_event: bool,
) -> TransactionConfirmRecord {
    TransactionConfirmRecord {
        signature: "sig".to_string(),
        sent_slot: 1,
        sent_at: "2024-01-01T00:00:00Z".to_string(),
        confirmed_slot: if confirmed { Some(2) } else { None },
        confirmed_at: if confirmed {
            Some("2024-01-01T00:00:01Z".to_string())
        } else {
            None
        },
        successful: confirmed && error.is_none(),
        slot_leader: None,
        error: error.map(|e| e.to_string()),
        user: None,
        market: None,
        block_hash: None,
        slot_processed: None,
        is_consume_event,
        timed_out: !confirmed,
        priority_fees: 0,
    }
}

fn counters(sent: u64, confirmed: u64, errors: Vec<(&str, u64)>) -> NACounters {
    let mut c = NACounters::zero();
    c.num_sent = sent;
    c.num_confirmed_txs = confirmed;
    c.errors = errors
        .into_iter()
        .map(|(e, n)| ErrorCount { error: e.to_string(), count: n })
        .collect();
    c
}

#[test]
fn normalizer_strips_the_instruction_prefix() {
    let n = ErrorNormalizer::new().expect("pattern compiles");
    assert_eq!(
        n.normalize("Error processing Instruction 2: custom program error: 0x1"),
        "custom program error: 0x1"
    );
    assert_eq!(
        n.normalize("Error processing Instruction 17: invalid account data"),
        "invalid account data"
    );
    assert_eq!(n.normalize("Blockhash not found"), "Blockhash not found");
}

#[test]
fn diff_subtracts_counters_and_error_counts() {
    let mut a = counters(10, 6, vec![("e1", 4), ("e2", 2)]);
    a.num_users_txs = 7;
    let mut b = counters(4, 1, vec![("e1", 1)]);
    b.num_users_txs = 3;
    let d = a.diff(&b);
    assert_eq!(d.num_sent, 6);
    assert_eq!(d.num_confirmed_txs, 5);
    assert_eq!(d.num_users_txs, 4);
    assert_eq!(d.errors.len(), 2);
    assert_eq!(d.errors[0].error, "e1");
    assert_eq!(d.errors[0].count, 3);
    assert_eq!(d.errors[1].error, "e2");
    assert_eq!(d.errors[1].count, 2);
}

#[test]
fn diff_with_itself_is_zero() {
    let a = counters(10, 6, vec![("e1", 4)]);
    let d = a.diff(&a.snapshot());
    assert_eq!(d.num_sent, 0);
    assert_eq!(d.num_confirmed_txs, 0);
    assert_eq!(d.errors.len(), 1);
    assert_eq!(d.errors[0].count, 0);
}

#[test]
fn diff_adds_up() {
    let a = counters(10, 6, vec![("e1", 4)]);
    let b = counters(3, 2, vec![("e1", 1)]);
    let d = a.diff(&b);
    assert_eq!(d.num_sent + b.num_sent, a.num_sent);
    assert_eq!(d.num_confirmed_txs + b.num_confirmed_txs, a.num_confirmed_txs);
    assert_eq!(d.errors[0].count + b.errors[0].count, a.errors[0].count);
}

#[test]
fn sends_are_counted_by_kind() {
    let mut s = OpenbookV2SimulationStats::new(2, 3, 10);
    assert_eq!(s.recv_limit(), 60);
    s.inc_send(true);
    s.inc_send(false);
    s.inc_send(false);
    let c = s.counters();
    assert_eq!(c.num_sent, 3);
    assert_eq!(c.num_consume_events_txs, 1);
    assert_eq!(c.num_users_txs, 2);
    assert_eq!(c.num_sent, c.num_users_txs + c.num_consume_events_txs);
}

#[test]
fn confirmations_are_counted_by_outcome() {
    let n = ErrorNormalizer::new().expect("pattern compiles");
    let mut s = OpenbookV2SimulationStats::new(1, 1, 1);
    let failed = confirm_record(true, Some("Error processing Instruction 0: slippage"), false);
    assert!(s.update_from_tx_status(&failed, &n));
    let failed_again = confirm_record(true, Some("Error processing Instruction 3: slippage"), false);
    assert!(s.update_from_tx_status(&failed_again, &n));
    assert!(s.update_from_tx_status(&confirm_record(true, None, true), &n));
    assert!(s.update_from_tx_status(&confirm_record(true, None, false), &n));
    assert!(s.update_from_tx_status(&confirm_record(false, None, false), &n));
    let c = s.counters();
    assert_eq!(c.num_confirmed_txs, 4);
    assert_eq!(c.num_error_txs, 2);
    assert_eq!(c.num_successful, 2);
    assert_eq!(c.succ_consume_events_txs, 1);
    assert_eq!(c.succ_users_txs, 1);
    assert_eq!(c.num_timeout_txs, 1);
    assert_eq!(c.errors.len(), 1);
    assert_eq!(c.errors[0].error, "slippage");
    assert_eq!(c.errors[0].count, 2);
    assert_eq!(c.num_confirmed_txs, c.num_error_txs + c.num_successful);
    assert_eq!(c.errors.iter().map(|e| e.count).sum::<u64>(), c.num_error_txs);
}

#[test]
fn an_error_of_an_unconfirmed_transaction_is_not_counted() {
    let n = ErrorNormalizer::new().expect("pattern compiles");
    let mut s = OpenbookV2SimulationStats::new(1, 1, 1);
    assert!(s.update_from_tx_status(&confirm_record(false, Some("late"), false), &n));
    assert_eq!(s.counters().num_timeout_txs, 1);
    assert_eq!(s.counters().num_error_txs, 0);
    assert!(s.counters().errors.is_empty());
}

#[test]
fn report_gives_percentages_and_diffs() {
    let n = ErrorNormalizer::new().expect("pattern compiles");
    let mut s = OpenbookV2SimulationStats::new(1, 3, 1);
    for _ in 0..3 {
        s.inc_send(false);
    }
    assert!(s.update_from_tx_status(&confirm_record(true, None, false), &n));
    assert!(s.update_from_tx_status(&confirm_record(true, Some("boom"), false), &n));
    assert!(s.can_report(false));
    let r = s.report(false);
    assert_eq!(r.recv_limit, 3);
    assert_eq!(r.counters.num_sent, 3);
    assert_eq!(r.confirmed_percent, 66);
    assert_eq!(r.successful_percent, 33);
    assert_eq!(r.timeout_percent, 0);
    assert_eq!(r.diff.num_sent, 3);
    assert_eq!(r.top_errors.len(), 1);
    assert_eq!(r.top_errors[0].error, "boom");

    // the final report counts every unconfirmed transaction as timed out,
    // and its diff is taken from the previous report
    s.inc_send(true);
    assert!(s.can_report(true));
    let f = s.report(true);
    assert_eq!(f.counters.num_sent, 4);
    assert_eq!(f.counters.num_timeout_txs, 2);
    assert_eq!(f.timeout_percent, 50);
    assert_eq!(f.diff.num_sent, 1);
    assert_eq!(f.diff.num_timeout_txs, 2);
    assert_eq!(f.diff.num_confirmed_txs, 0);
    assert_eq!(f.diff.errors[0].count, 0);
}

#[test]
fn top_errors_are_the_most_frequent_first() {
    let errs: Vec<ErrorCount> = vec![("a", 1), ("b", 7), ("c", 3), ("d", 9), ("e", 2), ("f", 5)]
        .into_iter()
        .map(|(e, n)| ErrorCount { error: e.to_string(), count: n })
        .collect();
    let top = top_errors(&errs, 5);
    let names: Vec<&str> = top.iter().map(|e| e.error.as_str()).collect();
    assert_eq!(names, vec!["d", "b", "f", "c", "e"]);
    let all = top_errors(&errs, 10);
    assert_eq!(all.len(), 6);
    assert_eq!(top_errors(&errs, 0).len(), 0);
}

#[test]
fn percentages_round_down_and_allow_no_sends() {
    assert_eq!(percent_of(1, 3), 33);
    assert_eq!(percent_of(2, 3), 66);
    assert_eq!(percent_of(3, 3), 100);
    assert_eq!(percent_of(5, 0), 0);
}

#[test]
fn counters_wrap_like_atomics() {
    assert_eq!(wrapping_inc(u64::MAX), 0);
    assert_eq!(wrapping_inc(41), 42);
}
