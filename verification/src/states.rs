//! Records of sent and confirmed transactions.
use vstd::prelude::*;

verus! {

/// A transaction handed to the sender.
#[derive(Clone, Debug)]
pub struct TransactionSendRecord {
    /// The first signature of the transaction.
    pub signature: [u8; 64],
    /// When it was sent, in milliseconds since the Unix epoch.
    pub sent_at: i64,
    pub sent_slot: u64,
    pub user: Option<[u8; 32]>,
    pub market: Option<[u8; 32]>,
    pub is_consume_event: bool,
    pub priority_fees: u64,
}

impl TransactionSendRecord {
    /// The record of a keeper transaction that consumes the events of
    /// `market`: no user, paying `priority_fees`.
    pub fn for_consume_events(
        signature: [u8; 64],
        sent_at: i64,
        sent_slot: u64,
        market: [u8; 32],
        priority_fees: u64,
    ) -> (r: Self)
        ensures
            r.signature == signature,
            r.sent_at == sent_at,
            r.sent_slot == sent_slot,
            r.user is None,
            r.market == Some(market),
            r.is_consume_event,
            r.priority_fees == priority_fees,
    {
        TransactionSendRecord {
            signature,
            sent_at,
            sent_slot,
            user: None,
            market: Some(market),
            is_consume_event: true,
            priority_fees,
        }
    }
}

/// What became of a sent transaction.
#[derive(Clone, Debug)]
pub struct TransactionConfirmRecord {
    pub signature: String,
    pub sent_slot: u64,
    pub sent_at: String,
    pub confirmed_slot: Option<u64>,
    pub confirmed_at: Option<String>,
    pub successful: bool,
    pub slot_leader: Option<String>,
    pub error: Option<String>,
    pub user: Option<String>,
    pub market: Option<String>,
    pub block_hash: Option<String>,
    pub slot_processed: Option<u64>,
    pub is_consume_event: bool,
    pub timed_out: bool,
    pub priority_fees: u64,
}

} // verus!
