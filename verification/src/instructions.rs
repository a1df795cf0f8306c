//! Instructions as plain values: the program they go to, their accounts in
//! order, and their data, encoded by openbook v2's and Solana's own code.
use crate::chain_data::Pubkey;
use anchor_lang::InstructionData;
use vstd::prelude::*;

verus! {

/// The compute budget program.
pub const COMPUTE_BUDGET_PROGRAM_ID: Pubkey = [
    3, 6, 70, 111, 229, 33, 23, 50, 255, 236, 173, 186, 114, 195, 155, 231, 188, 140, 229, 187, 197,
    247, 18, 107, 44, 67, 155, 58, 64, 0, 0, 0,
];

/// The SPL token program.
pub const TOKEN_PROGRAM_ID: Pubkey = [
    6, 221, 246, 225, 215, 101, 161, 147, 217, 203, 225, 70, 206, 235, 121, 172, 28, 180, 133, 237,
    95, 91, 55, 145, 58, 140, 245, 133, 126, 255, 0, 169,
];

#[derive(Clone, Copy, Debug, PartialEq, Eq, Structural)]
pub enum Side {
    Bid,
    Ask,
}

#[derive(Clone, Copy, Debug, PartialEq, Eq, Structural)]
pub enum PlaceOrderType {
    Limit,
}

#[derive(Clone, Copy, Debug, PartialEq, Eq, Structural)]
pub enum SelfTradeBehavior {
    DecrementTake,
}

/// Arguments of a cancel-all-orders instruction.
#[derive(Clone, Copy, Debug)]
pub struct CancelAllOrdersParams {
    pub side_option: Option<Side>,
    pub limit: u8,
}

/// Arguments of a place-order instruction.
#[derive(Clone, Copy, Debug)]
pub struct PlaceOrderParams {
    pub side: Side,
    pub price_lots: i64,
    pub max_base_lots: i64,
    pub max_quote_lots_including_fees: i64,
    pub client_order_id: u64,
    pub order_type: PlaceOrderType,
    pub expiry_timestamp: u64,
    pub self_trade_behavior: SelfTradeBehavior,
    pub limit: u8,
}

/// One account of an instruction.
#[derive(Clone, Copy, Debug, PartialEq, Eq)]
pub struct AccountMetaPlan {
    pub pubkey: Pubkey,
    pub is_signer: bool,
    pub is_writable: bool,
}

/// An instruction, ready to be put in a transaction.
#[derive(Clone, Debug)]
pub struct InstructionPlan {
    pub program_id: Pubkey,
    pub accounts: Vec<AccountMetaPlan>,
    pub data: Vec<u8>,
}

/// An instruction as plain values.
pub open spec fn instruction_view(i: InstructionPlan) -> (Pubkey, Seq<AccountMetaPlan>, Seq<u8>) {
    (i.program_id, i.accounts@, i.data@)
}

/// Instructions as plain values, in order.
pub open spec fn instruction_views(s: Seq<InstructionPlan>) -> Seq<(Pubkey, Seq<AccountMetaPlan>, Seq<u8>)> {
    Seq::new(s.len(), |i: int| instruction_view(s[i]))
}

/// `x` in `n` bytes, least significant first.
pub open spec fn le_bytes(x: nat, n: nat) -> Seq<u8>
    decreases n,
{
    if n == 0 {
        Seq::empty()
    } else {
        seq![(x % 256) as u8] + le_bytes(x / 256, (n - 1) as nat)
    }
}

/// Borsh encoding of a `u64`: eight bytes, least significant first.
pub open spec fn u64_bytes(x: u64) -> Seq<u8> {
    le_bytes(x as nat, 8)
}

/// Borsh encoding of an `i64`: its two's complement in eight bytes, least
/// significant first.
pub open spec fn i64_bytes(x: i64) -> Seq<u8> {
    le_bytes(
        if x < 0 {
            (x + 0x1_0000_0000_0000_0000int) as nat
        } else {
            x as nat
        },
        8,
    )
}

/// Borsh encoding of a side: the variant's index.
pub open spec fn side_byte(side: Side) -> u8 {
    match side {
        Side::Bid => 0,
        Side::Ask => 1,
    }
}

/// The data of openbook v2's `CancelAllOrders` instruction with `params`:
/// the first eight bytes of SHA-256 of `global:cancel_all_orders`, then the
/// arguments in Borsh: the optional side (0, or 1 and the side), the limit.
pub open spec fn cancel_all_orders_bytes(params: CancelAllOrdersParams) -> Seq<u8> {
    seq![196u8, 83, 243, 171, 17, 100, 160, 143] + match params.side_option {
        None => seq![0u8],
        Some(side) => seq![1u8, side_byte(side)],
    } + seq![params.limit]
}

/// The data of openbook v2's `PlaceOrder` instruction with `params`: the
/// first eight bytes of SHA-256 of `global:place_order`, then the fields of
/// `PlaceOrderArgs` in order, in Borsh (`Limit` and `DecrementTake` are
/// the first variants of their enums).
pub open spec fn place_order_bytes(params: PlaceOrderParams) -> Seq<u8> {
    seq![51u8, 194, 155, 175, 109, 130, 96, 106] + seq![side_byte(params.side)] + i64_bytes(
        params.price_lots,
    ) + i64_bytes(params.max_base_lots) + i64_bytes(params.max_quote_lots_including_fees)
        + u64_bytes(params.client_order_id) + seq![0u8] + u64_bytes(params.expiry_timestamp) + seq![
        0u8,
        params.limit,
    ]
}

/// The data of openbook v2's `ConsumeEvents` instruction with `limit`: the
/// first eight bytes of SHA-256 of `global:consume_events`, then `limit` as
/// a Borsh `u64`.
pub open spec fn consume_events_bytes(limit: u64) -> Seq<u8> {
    seq![221u8, 145, 177, 52, 31, 47, 63, 201] + u64_bytes(limit)
}

/// The data of the compute budget program's `SetComputeUnitPrice`
/// instruction for `micro_lamports`: the variant's index in
/// `ComputeBudgetInstruction` (3), then the price as a Borsh `u64`.
pub open spec fn compute_unit_price_bytes(micro_lamports: u64) -> Seq<u8> {
    seq![3u8] + u64_bytes(micro_lamports)
}

/// `anchor_lang::InstructionData::data` of
/// `openbook_v2::instruction::CancelAllOrders`. Claimed: the discriminator
/// followed by the Borsh encoding of the arguments, as anchor's
/// `InstructionData` documents it.
#[verifier::external_body]
fn cancel_all_orders_data(params: CancelAllOrdersParams) -> (r: Vec<u8>)
    ensures
        r@ == cancel_all_orders_bytes(params),
{
    let side_option = match params.side_option {
        Some(Side::Bid) => Some(openbook_v2::Side::Bid),
        Some(Side::Ask) => Some(openbook_v2::Side::Ask),
        None => None,
    };
    openbook_v2::instruction::CancelAllOrders { _side_option: side_option, _limit: params.limit }
        .data()
}

/// `anchor_lang::InstructionData::data` of
/// `openbook_v2::instruction::PlaceOrder`. Claimed: the discriminator
/// followed by the Borsh encoding of the arguments.
#[verifier::external_body]
fn place_order_data(p: PlaceOrderParams) -> (r: Vec<u8>)
    ensures
        r@ == place_order_bytes(p),
{
    let side = match p.side { Side::Bid => openbook_v2::Side::Bid, Side::Ask => openbook_v2::Side::Ask };
    let order_type = match p.order_type { PlaceOrderType::Limit => openbook_v2::PlaceOrderType::Limit };
    let stb = match p.self_trade_behavior {
        SelfTradeBehavior::DecrementTake => openbook_v2::SelfTradeBehavior::DecrementTake,
    };
    let args = openbook_v2::PlaceOrderArgs {
        side, price_lots: p.price_lots, max_base_lots: p.max_base_lots,
        max_quote_lots_including_fees: p.max_quote_lots_including_fees,
        client_order_id: p.client_order_id, order_type, expiry_timestamp: p.expiry_timestamp,
        self_trade_behavior: stb, limit: p.limit,
    };
    openbook_v2::instruction::PlaceOrder { _args: args }.data()
}

/// `anchor_lang::InstructionData::data` of
/// `openbook_v2::instruction::ConsumeEvents`. Claimed: the discriminator
/// followed by `limit` in Borsh.
#[verifier::external_body]
fn consume_events_data(limit: u64) -> (r: Vec<u8>)
    ensures
        r@ == consume_events_bytes(limit),
{
    openbook_v2::instruction::ConsumeEvents { _limit: limit }.data()
}

/// `solana_sdk::compute_budget::ComputeBudgetInstruction::set_compute_unit_price`.
/// Claimed: the instruction goes to the compute budget program, names no
/// account (the source builds it with an empty account list), and its data
/// is the Borsh encoding of `SetComputeUnitPrice(micro_lamports)`.
#[verifier::external_body]
fn compute_unit_price(micro_lamports: u64) -> (r: InstructionPlan)
    ensures
        r.program_id == COMPUTE_BUDGET_PROGRAM_ID,
        r.accounts@.len() == 0,
        r.data@ == compute_unit_price_bytes(micro_lamports),
{
    let ix = solana_sdk::compute_budget::ComputeBudgetInstruction::set_compute_unit_price(
        micro_lamports,
    );
    let accounts = ix.accounts.iter().map(
        |m| AccountMetaPlan { pubkey: m.pubkey.to_bytes(), is_signer: m.is_signer, is_writable: m.is_writable },
    ).collect();
    InstructionPlan { program_id: ix.program_id.to_bytes(), accounts, data: ix.data }
}

pub open spec fn signer(pubkey: Pubkey) -> AccountMetaPlan {
    AccountMetaPlan { pubkey, is_signer: true, is_writable: false }
}

pub open spec fn writable(pubkey: Pubkey) -> AccountMetaPlan {
    AccountMetaPlan { pubkey, is_signer: false, is_writable: true }
}

pub open spec fn readonly(pubkey: Pubkey) -> AccountMetaPlan {
    AccountMetaPlan { pubkey, is_signer: false, is_writable: false }
}

/// An optional signer: the account when given; when absent, the program id,
/// read-only. The `openbook_v2` client crate used here generates no
/// optional accounts (it would make the open-orders admin a required
/// signer), so the account lists are built in this module; for an absent
/// optional account they pass the program id, read-only and unsigned, the
/// placeholder that Anchor programs take for "none".
pub open spec fn optional_signer(pubkey: Option<Pubkey>, program_id: Pubkey) -> AccountMetaPlan {
    match pubkey {
        Some(k) => signer(k),
        None => readonly(program_id),
    }
}

/// An optional read-only account, the program id standing in when absent.
pub open spec fn optional_readonly(pubkey: Option<Pubkey>, program_id: Pubkey) -> AccountMetaPlan {
    match pubkey {
        Some(k) => readonly(k),
        None => readonly(program_id),
    }
}

fn meta(pubkey: Pubkey, is_signer: bool, is_writable: bool) -> (r: AccountMetaPlan)
    ensures
        r == (AccountMetaPlan { pubkey, is_signer, is_writable }),
{
    AccountMetaPlan { pubkey, is_signer, is_writable }
}

fn optional_meta(pubkey: Option<Pubkey>, program_id: Pubkey, is_signer: bool) -> (r: AccountMetaPlan)
    ensures
        is_signer ==> r == optional_signer(pubkey, program_id),
        !is_signer ==> r == optional_readonly(pubkey, program_id),
{
    match pubkey {
        Some(k) => meta(k, is_signer, false),
        None => meta(program_id, false, false),
    }
}

/// Accounts of a cancel-all-orders instruction.
#[derive(Clone, Copy, Debug)]
pub struct CancelAllOrdersAccounts {
    pub signer: Pubkey,
    pub open_orders_account: Pubkey,
    pub market: Pubkey,
    pub bids: Pubkey,
    pub asks: Pubkey,
}

/// Accounts of a place-order instruction.
#[derive(Clone, Copy, Debug)]
pub struct PlaceOrderAccounts {
    pub signer: Pubkey,
    pub open_orders_account: Pubkey,
    pub open_orders_admin: Option<Pubkey>,
    pub user_token_account: Pubkey,
    pub market: Pubkey,
    pub bids: Pubkey,
    pub asks: Pubkey,
    pub event_heap: Pubkey,
    pub market_vault: Pubkey,
    pub oracle_a: Option<Pubkey>,
    pub oracle_b: Option<Pubkey>,
    pub token_program: Pubkey,
}

/// The accounts of a cancel-all-orders instruction, in the program's order.
pub open spec fn cancel_all_orders_metas(a: CancelAllOrdersAccounts) -> Seq<AccountMetaPlan> {
    seq![
        signer(a.signer),
        writable(a.open_orders_account),
        readonly(a.market),
        writable(a.bids),
        writable(a.asks),
    ]
}

/// The accounts of a place-order instruction of program `program_id`, in
/// the program's order.
pub open spec fn place_order_metas(a: PlaceOrderAccounts, program_id: Pubkey) -> Seq<AccountMetaPlan> {
    seq![
        signer(a.signer),
        writable(a.open_orders_account),
        optional_signer(a.open_orders_admin, program_id),
        writable(a.user_token_account),
        writable(a.market),
        writable(a.bids),
        writable(a.asks),
        writable(a.event_heap),
        writable(a.market_vault),
        optional_readonly(a.oracle_a, program_id),
        optional_readonly(a.oracle_b, program_id),
        readonly(a.token_program),
    ]
}

/// The fixed accounts of a consume-events instruction of program
/// `program_id`, in the program's order; the event accounts follow them.
pub open spec fn consume_events_metas(
    admin: Option<Pubkey>,
    market: Pubkey,
    event_heap: Pubkey,
    program_id: Pubkey,
) -> Seq<AccountMetaPlan> {
    seq![optional_signer(admin, program_id), writable(market), writable(event_heap)]
}

/// A cancel-all-orders instruction of program `program_id`.
pub fn cancel_all_orders_instruction(
    program_id: Pubkey,
    accounts: CancelAllOrdersAccounts,
    params: CancelAllOrdersParams,
) -> (r: InstructionPlan)
    ensures
        instruction_view(r) == (program_id, cancel_all_orders_metas(accounts), cancel_all_orders_bytes(params)),
{
    let mut metas: Vec<AccountMetaPlan> = Vec::new();
    metas.push(meta(accounts.signer, true, false));
    metas.push(meta(accounts.open_orders_account, false, true));
    metas.push(meta(accounts.market, false, false));
    metas.push(meta(accounts.bids, false, true));
    metas.push(meta(accounts.asks, false, true));
    assert(metas@ =~= cancel_all_orders_metas(accounts));
    InstructionPlan { program_id, accounts: metas, data: cancel_all_orders_data(params) }
}

/// A place-order instruction of program `program_id`.
pub fn place_order_instruction(
    program_id: Pubkey,
    accounts: PlaceOrderAccounts,
    params: PlaceOrderParams,
) -> (r: InstructionPlan)
    ensures
        instruction_view(r) == (program_id, place_order_metas(accounts, program_id), place_order_bytes(params)),
{
    let mut metas: Vec<AccountMetaPlan> = Vec::new();
    metas.push(meta(accounts.signer, true, false));
    metas.push(meta(accounts.open_orders_account, false, true));
    metas.push(optional_meta(accounts.open_orders_admin, program_id, true));
    metas.push(meta(accounts.user_token_account, false, true));
    metas.push(meta(accounts.market, false, true));
    metas.push(meta(accounts.bids, false, true));
    metas.push(meta(accounts.asks, false, true));
    metas.push(meta(accounts.event_heap, false, true));
    metas.push(meta(accounts.market_vault, false, true));
    metas.push(optional_meta(accounts.oracle_a, program_id, false));
    metas.push(optional_meta(accounts.oracle_b, program_id, false));
    metas.push(meta(accounts.token_program, false, false));
    assert(metas@ =~= place_order_metas(accounts, program_id));
    InstructionPlan { program_id, accounts: metas, data: place_order_data(params) }
}

/// A consume-events instruction of program `program_id` for `market`'s
/// event heap, consuming up to `limit` events, with `event_accounts`
/// (writable) after the fixed accounts.
pub fn consume_events_instruction(
    program_id: Pubkey,
    market: Pubkey,
    event_heap: Pubkey,
    event_accounts: &Vec<Pubkey>,
    limit: u64,
) -> (r: InstructionPlan)
    ensures
        r.program_id == program_id,
        r.accounts@ == consume_events_metas(None, market, event_heap, program_id) + Seq::new(
            event_accounts@.len(),
            |i: int| writable(event_accounts@[i]),
        ),
        r.data@ == consume_events_bytes(limit),
{
    let mut metas: Vec<AccountMetaPlan> = Vec::new();
    metas.push(optional_meta(None, program_id, true));
    metas.push(meta(market, false, true));
    metas.push(meta(event_heap, false, true));
    let ghost fixed = consume_events_metas(None, market, event_heap, program_id);
    assert(metas@ =~= fixed);
    let mut i: usize = 0;
    while i < event_accounts.len()
        invariant
            i <= event_accounts@.len(),
            metas@ =~= fixed + Seq::new(i as nat, |j: int| writable(event_accounts@[j])),
        decreases event_accounts@.len() - i,
    {
        metas.push(meta(event_accounts[i], false, true));
        i = i + 1;
    }
    InstructionPlan { program_id, accounts: metas, data: consume_events_data(limit) }
}

/// The keeper's instructions for one crank: the consume-events instruction,
/// then a compute unit price of `priority_fee` micro-lamports.
pub fn with_compute_unit_price(ix: InstructionPlan, priority_fee: u64) -> (r: Vec<InstructionPlan>)
    ensures
        r@.len() == 2,
        instruction_view(r@[0]) == instruction_view(ix),
        r@[1].program_id == COMPUTE_BUDGET_PROGRAM_ID,
        r@[1].accounts@.len() == 0,
        r@[1].data@ == compute_unit_price_bytes(priority_fee),
{
    let mut r: Vec<InstructionPlan> = Vec::new();
    r.push(ix);
    r.push(compute_unit_price(priority_fee));
    r
}

} // verus!
