//! Market making: each (user, market) pair keeps quoting, at every step
//! cancelling its orders and placing a bid and an ask around the market price.
use crate::chain_data::{keys_equal, Pubkey};
use crate::instructions::{
    cancel_all_orders_bytes, cancel_all_orders_instruction, cancel_all_orders_metas,
    instruction_views, place_order_bytes, place_order_instruction, place_order_metas,
    AccountMetaPlan, CancelAllOrdersAccounts, CancelAllOrdersParams, InstructionPlan, PlaceOrderAccounts,
    PlaceOrderParams, PlaceOrderType, SelfTradeBehavior, Side, TOKEN_PROGRAM_ID,
};
use crate::openbook_config::{Obv2Market, Obv2User};
use rand::{Rng, SeedableRng};
use vstd::prelude::*;

verus! {

/// The three orders of one quote, for the program `program_id`: cancel all
/// orders, then place a bid and an ask.
#[derive(Clone, Copy, Debug)]
pub struct MarketMakingOrders {
    pub program_id: Pubkey,
    pub cancel_accounts: CancelAllOrdersAccounts,
    pub cancel: CancelAllOrdersParams,
    pub bid_accounts: PlaceOrderAccounts,
    pub bid: PlaceOrderParams,
    pub ask_accounts: PlaceOrderAccounts,
    pub ask: PlaceOrderParams,
}

/// The user has an open-orders account on the market.
pub open spec fn has_open_orders(user: Obv2User, market: Pubkey) -> bool {
    exists|i: int| 0 <= i < user.open_orders@.len() && user.open_orders@[i].market == market
}

/// The user's first open-orders account on the market.
pub open spec fn open_orders_for(user: Obv2User, market: Pubkey) -> Pubkey {
    user.open_orders@[choose|i: int|
        0 <= i < user.open_orders@.len() && user.open_orders@[i].market == market && forall|j: int|
            0 <= j < i ==> user.open_orders@[j].market != market].open_orders
}

/// Prices `offset` lots around the market price fit `i64`.
pub open spec fn quote_fits(market: Obv2Market, offset: i64) -> bool {
    i64::MIN <= (market.price as i64) + offset <= i64::MAX && i64::MIN <= (market.price as i64)
        - offset <= i64::MAX
}

/// The quote of `user` on `market`: cancel all of the user's orders (up to
/// 255), bid `size` base lots at `offset` lots above the market price, with
/// the quote vault as token account and the base vault as market vault, and
/// ask for `size` quote lots at `offset` lots below it, the vaults the other
/// way round; limit orders that decrement the taker on self trades, with no
/// expiry, signed by the user, the market's oracle as first oracle and no
/// open-orders admin.
pub open spec fn market_making_orders(
    user: Obv2User,
    market: Obv2Market,
    program_id: Pubkey,
    client_id: u64,
    offset: i64,
    size: i64,
) -> MarketMakingOrders {
    let open_orders_account = open_orders_for(user, market.market_pk);
    let owner = array_from_seq(user.secret.spec_pubkey());
    MarketMakingOrders {
        program_id,
        cancel_accounts: CancelAllOrdersAccounts {
            signer: owner,
            open_orders_account,
            market: market.market_pk,
            bids: market.bids,
            asks: market.asks,
        },
        cancel: CancelAllOrdersParams { side_option: None, limit: 255 },
        bid_accounts: PlaceOrderAccounts {
            signer: owner,
            open_orders_account,
            open_orders_admin: None,
            user_token_account: market.quote_vault,
            market: market.market_pk,
            bids: market.bids,
            asks: market.asks,
            event_heap: market.event_queue,
            market_vault: market.base_vault,
            oracle_a: Some(market.oracle),
            oracle_b: None,
            token_program: TOKEN_PROGRAM_ID,
        },
        bid: PlaceOrderParams {
            side: Side::Bid,
            price_lots: ((market.price as i64) + offset) as i64,
            max_base_lots: size,
            max_quote_lots_including_fees: i64::MAX,
            client_order_id: client_id,
            order_type: PlaceOrderType::Limit,
            expiry_timestamp: 0,
            self_trade_behavior: SelfTradeBehavior::DecrementTake,
            limit: 255,
        },
        ask_accounts: PlaceOrderAccounts {
            signer: owner,
            open_orders_account,
            open_orders_admin: None,
            user_token_account: market.base_vault,
            market: market.market_pk,
            bids: market.bids,
            asks: market.asks,
            event_heap: market.event_queue,
            market_vault: market.quote_vault,
            oracle_a: Some(market.oracle),
            oracle_b: None,
            token_program: TOKEN_PROGRAM_ID,
        },
        ask: PlaceOrderParams {
            side: Side::Ask,
            price_lots: ((market.price as i64) - offset) as i64,
            max_base_lots: i64::MAX,
            max_quote_lots_including_fees: size,
            client_order_id: client_id,
            order_type: PlaceOrderType::Limit,
            expiry_timestamp: 0,
            self_trade_behavior: SelfTradeBehavior::DecrementTake,
            limit: 255,
        },
    }
}

/// The instructions of a quote, as plain values: cancel all orders, then
/// the bid, then the ask.
pub open spec fn orders_instructions(o: MarketMakingOrders) -> Seq<(Pubkey, Seq<AccountMetaPlan>, Seq<u8>)> {
    seq![
        (o.program_id, cancel_all_orders_metas(o.cancel_accounts), cancel_all_orders_bytes(o.cancel)),
        (o.program_id, place_order_metas(o.bid_accounts, o.program_id), place_order_bytes(o.bid)),
        (o.program_id, place_order_metas(o.ask_accounts, o.program_id), place_order_bytes(o.ask)),
    ]
}

/// The 32-byte array with the bytes of `s`.
pub open spec fn array_from_seq(s: Seq<u8>) -> Pubkey {
    choose|a: Pubkey| a@ == s
}

/// The user's first open-orders account on `market`.
pub fn find_open_orders(user: &Obv2User, market: &Pubkey) -> (r: Option<Pubkey>)
    ensures
        r is Some == has_open_orders(*user, *market),
        r matches Some(pk) ==> pk == open_orders_for(*user, *market),
{
    let mut i: usize = 0;
    while i < user.open_orders.len()
        invariant
            i <= user.open_orders@.len(),
            forall|j: int| 0 <= j < i ==> user.open_orders@[j].market != *market,
        decreases user.open_orders@.len() - i,
    {
        if keys_equal(&user.open_orders[i].market, market) {
            proof {
                let k = choose|k: int|
                    0 <= k < user.open_orders@.len() && user.open_orders@[k].market == *market
                        && forall|j: int| 0 <= j < k ==> user.open_orders@[j].market != *market;
                assert(0 <= i < user.open_orders@.len() && user.open_orders@[i as int].market == *market
                    && forall|j: int| 0 <= j < i ==> user.open_orders@[j].market != *market);
                if k < i {
                } else if k > i {
                }
                assert(k == i);
            }
            return Some(user.open_orders[i].open_orders);
        }
        i = i + 1;
    }
    None
}

/// The orders of one quote (see `market_making_orders`).
pub fn quote_orders(
    user: &Obv2User,
    market: &Obv2Market,
    program_id: Pubkey,
    client_id: u64,
    offset: i64,
    size: i64,
) -> (r: MarketMakingOrders)
    requires
        has_open_orders(*user, market.market_pk),
        user.secret.bytes@.len() == 64,
        quote_fits(*market, offset),
    ensures
        r == market_making_orders(*user, *market, program_id, client_id, offset, size),
{
    let open_orders_account = match find_open_orders(user, &market.market_pk) {
        Some(pk) => pk,
        None => {
            assert(false);
            [0u8; 32]
        },
    };
    let owner = user.secret.pubkey();
    assert(owner == array_from_seq(user.secret.spec_pubkey()));
    let price = market.price as i64;
    MarketMakingOrders {
        program_id,
        cancel_accounts: CancelAllOrdersAccounts {
            signer: owner,
            open_orders_account,
            market: market.market_pk,
            bids: market.bids,
            asks: market.asks,
        },
        cancel: CancelAllOrdersParams { side_option: None, limit: 255 },
        bid_accounts: PlaceOrderAccounts {
            signer: owner,
            open_orders_account,
            open_orders_admin: None,
            user_token_account: market.quote_vault,
            market: market.market_pk,
            bids: market.bids,
            asks: market.asks,
            event_heap: market.event_queue,
            market_vault: market.base_vault,
            oracle_a: Some(market.oracle),
            oracle_b: None,
            token_program: TOKEN_PROGRAM_ID,
        },
        bid: PlaceOrderParams {
            side: Side::Bid,
            price_lots: price + offset,
            max_base_lots: size,
            max_quote_lots_including_fees: i64::MAX,
            client_order_id: client_id,
            order_type: PlaceOrderType::Limit,
            expiry_timestamp: 0,
            self_trade_behavior: SelfTradeBehavior::DecrementTake,
            limit: 255,
        },
        ask_accounts: PlaceOrderAccounts {
            signer: owner,
            open_orders_account,
            open_orders_admin: None,
            user_token_account: market.base_vault,
            market: market.market_pk,
            bids: market.bids,
            asks: market.asks,
            event_heap: market.event_queue,
            market_vault: market.quote_vault,
            oracle_a: Some(market.oracle),
            oracle_b: None,
            token_program: TOKEN_PROGRAM_ID,
        },
        ask: PlaceOrderParams {
            side: Side::Ask,
            price_lots: price - offset,
            max_base_lots: i64::MAX,
            max_quote_lots_including_fees: size,
            client_order_id: client_id,
            order_type: PlaceOrderType::Limit,
            expiry_timestamp: 0,
            self_trade_behavior: SelfTradeBehavior::DecrementTake,
            limit: 255,
        },
    }
}

/// The instructions of a quote: cancel all orders, then the bid, then the
/// ask.
pub fn encode_orders(o: &MarketMakingOrders) -> (r: Vec<InstructionPlan>)
    ensures
        instruction_views(r@) == orders_instructions(*o),
{
    let mut r: Vec<InstructionPlan> = Vec::new();
    r.push(cancel_all_orders_instruction(o.program_id, o.cancel_accounts, o.cancel));
    r.push(place_order_instruction(o.program_id, o.bid_accounts, o.bid));
    r.push(place_order_instruction(o.program_id, o.ask_accounts, o.ask));
    assert(instruction_views(r@) =~= orders_instructions(*o));
    r
}

/// The instructions of one quote (see `market_making_orders` and
/// `orders_instructions`).
pub fn create_market_making_instructions(
    user: &Obv2User,
    market: &Obv2Market,
    program_id: Pubkey,
    client_id: u64,
    offset: i64,
    size: i64,
) -> (r: Vec<InstructionPlan>)
    requires
        has_open_orders(*user, market.market_pk),
        user.secret.bytes@.len() == 64,
        quote_fits(*market, offset),
    ensures
        instruction_views(r@) == orders_instructions(
            market_making_orders(*user, *market, program_id, client_id, offset, size),
        ),
{
    let orders = quote_orders(user, market, program_id, client_id, offset, size);
    encode_orders(&orders)
}

/// Remainder of `x` by `m` rounded toward zero (Rust's `%`).
pub open spec fn trunc_rem(x: int, m: int) -> int {
    if x >= 0 {
        x % m
    } else {
        -((-x) % m)
    }
}

/// Price offset of a quote, from a random `i64`: its remainder by 100.
pub fn quote_offset(raw: i64) -> (r: i64)
    ensures
        r == trunc_rem(raw as int, 100),
        -100 < r < 100,
{
    raw % 100
}

/// Size of a quote, from a random `u64`: between 10 and 1009 lots.
pub fn quote_size(raw: u64) -> (r: u64)
    ensures
        r == raw % 1000 + 10,
        10 <= r <= 1009,
{
    raw % 1000 + 10
}

#[verifier::external_type_specification]
#[verifier::external_body]
pub struct ExStdRng(rand::rngs::StdRng);

/// `rand::SeedableRng::seed_from_u64` for `rand::rngs::StdRng`: a generator
/// seeded with `seed`. Nothing is claimed of the generator.
#[verifier::external_body]
fn seeded_rng(seed: u64) -> rand::rngs::StdRng {
    rand::rngs::StdRng::seed_from_u64(seed)
}

/// `rand::Rng::gen::<i64>`: the generator's next `i64`. Nothing is
/// claimed of it: it depends on the generator's state.
#[verifier::external_body]
fn random_i64(rng: &mut rand::rngs::StdRng) -> i64 {
    rng.gen::<i64>()
}

/// `rand::Rng::gen::<u64>`: the generator's next `u64`. Nothing is
/// claimed of it: it depends on the generator's state.
#[verifier::external_body]
fn random_u64(rng: &mut rand::rngs::StdRng) -> u64 {
    rng.gen::<u64>()
}

/// One (user, market) pair's quoting: its random generator and the client
/// order id of its next quote.
pub struct MarketMaker {
    user: Obv2User,
    market: Obv2Market,
    program_id: Pubkey,
    rng: rand::rngs::StdRng,
    client_id: u64,
}

impl MarketMaker {
    pub closed spec fn spec_user(&self) -> Obv2User {
        self.user
    }

    pub closed spec fn spec_market(&self) -> Obv2Market {
        self.market
    }

    pub closed spec fn spec_program_id(&self) -> Pubkey {
        self.program_id
    }

    pub closed spec fn spec_client_id(&self) -> u64 {
        self.client_id
    }

    /// The user has an open-orders account on the market, a 64-byte key
    /// pair, and every price within 99 lots of the market price fits `i64`.
    pub open spec fn can_quote(&self) -> bool {
        &&& has_open_orders(self.spec_user(), self.spec_market().market_pk)
        &&& self.spec_user().secret.bytes@.len() == 64
        &&& i64::MIN + 99 <= (self.spec_market().price as i64) <= i64::MAX - 99
    }

    /// Quoting for `user` on `market`, with a generator seeded with `seed`,
    /// from client order id 0. The generator is opaque here: the contract
    /// does not tie it to `seed`.
    pub fn new(user: Obv2User, market: Obv2Market, program_id: Pubkey, seed: u64) -> (r: Self)
        ensures
            r.spec_user() == user,
            r.spec_market() == market,
            r.spec_program_id() == program_id,
            r.spec_client_id() == 0,
    {
        MarketMaker { user, market, program_id, rng: seeded_rng(seed), client_id: 0 }
    }

    pub fn client_id(&self) -> (r: u64)
        ensures
            r == self.spec_client_id(),
    {
        self.client_id
    }

    pub fn user(&self) -> (r: &Obv2User)
        ensures
            *r == self.spec_user(),
    {
        &self.user
    }

    /// The next quote: a random offset below 100 lots either way and a
    /// random size of 10 to 1009 lots, with the current client order id,
    /// which then goes up by one.
    pub fn next_orders(&mut self) -> (r: Vec<InstructionPlan>)
        requires
            old(self).can_quote(),
            old(self).spec_client_id() < u64::MAX,
        ensures
            final(self).spec_user() == old(self).spec_user(),
            final(self).spec_market() == old(self).spec_market(),
            final(self).spec_program_id() == old(self).spec_program_id(),
            final(self).spec_client_id() == old(self).spec_client_id() + 1,
            exists|offset: i64, size: i64|
                -100 < offset < 100 && 10 <= size <= 1009 && instruction_views(r@)
                    == orders_instructions(
                    market_making_orders(
                        old(self).spec_user(),
                        old(self).spec_market(),
                        old(self).spec_program_id(),
                        old(self).spec_client_id(),
                        offset,
                        size,
                    ),
                ),
    {
        let offset = quote_offset(random_i64(&mut self.rng));
        let size = quote_size(random_u64(&mut self.rng));
        let orders = create_market_making_instructions(
            &self.user,
            &self.market,
            self.program_id,
            self.client_id,
            offset,
            size as i64,
        );
        let ghost sz = size as i64;
        assert(-100 < offset < 100 && 10 <= sz <= 1009 && instruction_views(orders@)
            == orders_instructions(
            market_making_orders(
                old(self).spec_user(),
                old(self).spec_market(),
                old(self).spec_program_id(),
                old(self).spec_client_id(),
                offset,
                sz,
            ),
        ));
        self.client_id = self.client_id + 1;
        orders
    }
}

/// How long, in milliseconds, a market maker rests after a round of quotes
/// that took `elapsed_ms`: rounds start one second apart, or at once when a
/// round took longer.
pub fn pause_after_round_ms(elapsed_ms: u64) -> (r: u64)
    ensures
        r == if elapsed_ms < 1000 {
            1000 - elapsed_ms
        } else {
            0
        },
{
    if elapsed_ms < 1000 {
        1000 - elapsed_ms
    } else {
        0
    }
}

/// The (user, market) pairs that quote, users in the outer order, and the
/// seed of each pair's generator: its position in that order.
pub fn market_maker_seeds(nb_users: usize, nb_markets: usize) -> (r: Vec<(usize, usize, u64)>)
    requires
        nb_users * nb_markets <= usize::MAX,
    ensures
        r@.len() == nb_users * nb_markets,
        forall|u: int, m: int|
            0 <= u < nb_users && 0 <= m < nb_markets ==> #[trigger] r@[u * nb_markets + m] == (
                u as usize,
                m as usize,
                (u * nb_markets + m) as u64,
            ),
{
    let mut tasks: Vec<(usize, usize, u64)> = Vec::new();
    let mut seed: u64 = 0;
    let mut u: usize = 0;
    while u < nb_users
        invariant
            nb_users * nb_markets <= usize::MAX,
            u <= nb_users,
            tasks@.len() == u * nb_markets,
            seed == u * nb_markets,
            forall|a: int, m: int|
                0 <= a < u && 0 <= m < nb_markets ==> #[trigger] tasks@[a * nb_markets + m] == (
                    a as usize,
                    m as usize,
                    (a * nb_markets + m) as u64,
                ),
        decreases nb_users - u,
    {
        proof {
            assert(u * nb_markets + nb_markets <= nb_users * nb_markets) by (nonlinear_arith)
                requires
                    u < nb_users,
            ;
        }
        let mut m: usize = 0;
        while m < nb_markets
            invariant
                nb_users * nb_markets <= usize::MAX,
                u < nb_users,
                u * nb_markets + nb_markets <= nb_users * nb_markets,
                m <= nb_markets,
                tasks@.len() == u * nb_markets + m,
                seed == u * nb_markets + m,
                forall|a: int, k: int|
                    0 <= a < u && 0 <= k < nb_markets ==> #[trigger] tasks@[a * nb_markets + k] == (
                        a as usize,
                        k as usize,
                        (a * nb_markets + k) as u64,
                    ),
                forall|k: int| 0 <= k < m ==> #[trigger] tasks@[u * nb_markets + k] == (
                    u,
                    k as usize,
                    (u * nb_markets + k) as u64,
                ),
            decreases nb_markets - m,
        {
            let ghost before = tasks@;
            tasks.push((u, m, seed));
            proof {
                assert forall|a: int, k: int|
                    0 <= a < u && 0 <= k < nb_markets implies #[trigger] tasks@[a * nb_markets + k]
                    == (a as usize, k as usize, (a * nb_markets + k) as u64) by {
                    assert(a * nb_markets + k < u * nb_markets) by (nonlinear_arith)
                        requires
                            a < u,
                            k < nb_markets,
                    ;
                    assert(tasks@[a * nb_markets + k] == before[a * nb_markets + k]);
                }
            }
            seed = seed + 1;
            m = m + 1;
        }
        proof {
            assert((u + 1) * nb_markets == u * nb_markets + nb_markets) by (nonlinear_arith);
            assert forall|a: int, k: int|
                0 <= a < u + 1 && 0 <= k < nb_markets implies #[trigger] tasks@[a * nb_markets + k]
                == (a as usize, k as usize, (a * nb_markets + k) as u64) by {
                if a == u {
                    assert(tasks@[u * nb_markets + k] == (u, k as usize, (u * nb_markets + k) as u64));
                }
            }
        }
        u = u + 1;
    }
    tasks
}

/// Every instruction of a quote goes to the program and names the market's
/// own accounts in their places: the user's open-orders account, the
/// market, its bids book as bids and its asks book as asks, and for the
/// two orders its event heap. The bid pays from the quote vault into the
/// base vault and the ask the other way round; the bid is placed `offset`
/// lots above the market price and the ask as far below it, both for
/// `size` lots and with the quote's client order id.
pub proof fn law_quote_names_market_accounts(
    user: Obv2User,
    market: Obv2Market,
    program_id: Pubkey,
    client_id: u64,
    offset: i64,
    size: i64,
)
    requires
        quote_fits(market, offset),
    ensures
        ({
            let o = market_making_orders(user, market, program_id, client_id, offset, size);
            let v = orders_instructions(o);
            let oo = open_orders_for(user, market.market_pk);
            &&& v.len() == 3
            &&& v[0].0 == program_id && v[1].0 == program_id && v[2].0 == program_id
            &&& v[0].1.len() == 5
            &&& v[0].1[1] == (AccountMetaPlan { pubkey: oo, is_signer: false, is_writable: true })
            &&& v[0].1[2] == (AccountMetaPlan { pubkey: market.market_pk, is_signer: false, is_writable: false })
            &&& v[0].1[3] == (AccountMetaPlan { pubkey: market.bids, is_signer: false, is_writable: true })
            &&& v[0].1[4] == (AccountMetaPlan { pubkey: market.asks, is_signer: false, is_writable: true })
            &&& forall|k: int|
                1 <= k < 3 ==> {
                    &&& (#[trigger] v[k]).1.len() == 12
                    &&& v[k].1[1] == (AccountMetaPlan { pubkey: oo, is_signer: false, is_writable: true })
                    &&& v[k].1[4] == (AccountMetaPlan { pubkey: market.market_pk, is_signer: false, is_writable: true })
                    &&& v[k].1[5] == (AccountMetaPlan { pubkey: market.bids, is_signer: false, is_writable: true })
                    &&& v[k].1[6] == (AccountMetaPlan { pubkey: market.asks, is_signer: false, is_writable: true })
                    &&& v[k].1[7] == (AccountMetaPlan { pubkey: market.event_queue, is_signer: false, is_writable: true })
                }
            &&& v[1].1[3] == (AccountMetaPlan { pubkey: market.quote_vault, is_signer: false, is_writable: true })
            &&& v[1].1[8] == (AccountMetaPlan { pubkey: market.base_vault, is_signer: false, is_writable: true })
            &&& v[2].1[3] == (AccountMetaPlan { pubkey: market.base_vault, is_signer: false, is_writable: true })
            &&& v[2].1[8] == (AccountMetaPlan { pubkey: market.quote_vault, is_signer: false, is_writable: true })
            &&& o.bid.side == Side::Bid && o.ask.side == Side::Ask
            &&& o.bid.price_lots == market.price as i64 + offset
            &&& o.ask.price_lots == market.price as i64 - offset
            &&& o.bid.max_base_lots == size && o.ask.max_quote_lots_including_fees == size
            &&& o.bid.client_order_id == client_id && o.ask.client_order_id == client_id
        }),
{
}

/// No two (user, market) pairs share a seed.
pub proof fn law_seeds_distinct(nb_markets: int, u1: int, m1: int, u2: int, m2: int)
    requires
        0 <= u1,
        0 <= u2,
        0 <= m1 < nb_markets,
        0 <= m2 < nb_markets,
        u1 != u2 || m1 != m2,
    ensures
        u1 * nb_markets + m1 != u2 * nb_markets + m2,
{
    if u1 == u2 {
    } else if u1 < u2 {
        assert(u1 * nb_markets + nb_markets <= u2 * nb_markets) by (nonlinear_arith)
            requires
                u1 < u2,
                0 < nb_markets,
        ;
    } else {
        assert(u2 * nb_markets + nb_markets <= u1 * nb_markets) by (nonlinear_arith)
            requires
                u2 < u1,
                0 < nb_markets,
        ;
    }
}

} // verus!
