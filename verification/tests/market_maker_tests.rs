use openbook_simulation::instructions::{
    AccountMetaPlan, PlaceOrderType, SelfTradeBehavior, Side, TOKEN_PROGRAM_ID,
};
use openbook_simulation::market_maker::{
    create_market_making_instructions, find_open_orders, market_maker_seeds,
    pause_after_round_ms, quote_offset, quote_size, quote_orders, MarketMaker,
};
use openbook_simulation::openbook_config::{
    KeypairBytes, Obv2Market, Obv2OpenOrders, Obv2TokenAccountData, Obv2User,
};

fn user() -> Obv2User {
    let mut bytes = vec![1u8; 32];
    bytes.extend_from_slice(&[2u8; 32]);
    Obv2User {
        secret: KeypairBytes { bytes },
        token_data: vec![Obv2TokenAccountData { mint: [5u8; 32], token_account: [6u8; 32] }],
        open_orders: vec![
            Obv2OpenOrders { market: [30u8; 32], open_orders: [31u8; 32] },
            Obv2OpenOrders { market: [10u8; 32], open_orders: [11u8; 32] },
            Obv2OpenOrders { market: [10u8; 32], open_orders: [12u8; 32] },
        ],
    }
}

fn market() -> Obv2Market {
    Obv2Market {
        name: "SOL/USDC".to_string(),
        admin: KeypairBytes { bytes: vec![0u8; 64] },
        market_pk: [10u8; 32],
        oracle: [13u8; 32],
        asks: [14u8; 32],
        bids: [15u8; 32],
        event_queue: [16u8; 32],
        base_vault: [17u8; 32],
        quote_vault: [18u8; 32],
        base_mint: [19u8; 32],
        quote_mint: [20u8; 32],
        market_index: 0,
        price: 1_000,
    }
}

#[test]
fn first_open_orders_account_of_the_market_is_used() {
    assert_eq!(find_open_orders(&user(), &[10u8; 32]), Some([11u8; 32]));
    assert_eq!(find_open_orders(&user(), &[99u8; 32]), None);
}

#[test]
fn a_quote_cancels_then_bids_and_asks_around_the_price() {
    let program_id = [50u8; 32];
    let o = quote_orders(&user(), &market(), program_id, 7, 12, 300);
    assert_eq!(o.program_id, program_id);
    assert_eq!(o.cancel_accounts.open_orders_account, [11u8; 32]);
    assert_eq!(o.cancel_accounts.signer, [2u8; 32]);
    assert_eq!(o.cancel_accounts.market, [10u8; 32]);
    assert_eq!(o.cancel.limit, 255);
    assert_eq!(o.cancel.side_option, None);

    assert_eq!(o.bid.side, Side::Bid);
    assert_eq!(o.bid.price_lots, 1_012);
    assert_eq!(o.bid.max_base_lots, 300);
    assert_eq!(o.bid.max_quote_lots_including_fees, i64::MAX);
    assert_eq!(o.bid.client_order_id, 7);
    assert_eq!(o.bid.order_type, PlaceOrderType::Limit);
    assert_eq!(o.bid.self_trade_behavior, SelfTradeBehavior::DecrementTake);
    assert_eq!(o.bid.expiry_timestamp, 0);
    assert_eq!(o.bid.limit, 255);
    assert_eq!(o.bid_accounts.market_vault, [17u8; 32]);
    assert_eq!(o.bid_accounts.user_token_account, [18u8; 32]);
    assert_eq!(o.bid_accounts.signer, [2u8; 32]);
    assert_eq!(o.bid_accounts.oracle_a, Some([13u8; 32]));
    assert_eq!(o.bid_accounts.open_orders_admin, None);
    assert_eq!(o.bid_accounts.token_program, TOKEN_PROGRAM_ID);

    assert_eq!(o.ask.side, Side::Ask);
    assert_eq!(o.ask.price_lots, 988);
    assert_eq!(o.ask.max_base_lots, i64::MAX);
    assert_eq!(o.ask.max_quote_lots_including_fees, 300);
    assert_eq!(o.ask_accounts.market_vault, [18u8; 32]);
    assert_eq!(o.ask_accounts.user_token_account, [17u8; 32]);
    assert_eq!(o.ask_accounts.event_heap, [16u8; 32]);
}

fn writable(k: u8) -> AccountMetaPlan {
    AccountMetaPlan { pubkey: [k; 32], is_signer: false, is_writable: true }
}

fn readonly(k: u8) -> AccountMetaPlan {
    AccountMetaPlan { pubkey: [k; 32], is_signer: false, is_writable: false }
}

#[test]
fn quote_instructions_are_encoded_for_openbook() {
    let program_id = [50u8; 32];
    let ixs = create_market_making_instructions(&user(), &market(), program_id, 7, 12, 300);
    assert_eq!(ixs.len(), 3);
    for ix in &ixs {
        assert_eq!(ix.program_id, program_id);
    }
    let owner = AccountMetaPlan { pubkey: [2u8; 32], is_signer: true, is_writable: false };
    assert_eq!(
        ixs[0].accounts,
        vec![owner, writable(11), readonly(10), writable(15), writable(14)]
    );
    // discriminator, no side, limit 255
    assert_eq!(ixs[0].data.len(), 10);
    assert_eq!(&ixs[0].data[8..], &[0, 255]);

    assert_eq!(
        ixs[1].accounts,
        vec![
            owner,
            writable(11),
            readonly(50),
            writable(18),
            writable(10),
            writable(15),
            writable(14),
            writable(16),
            writable(17),
            readonly(13),
            readonly(50),
            AccountMetaPlan { pubkey: TOKEN_PROGRAM_ID, is_signer: false, is_writable: false },
        ]
    );
    let bid = &ixs[1].data;
    assert_eq!(bid.len(), 52);
    assert_eq!(bid[8], 0);
    assert_eq!(&bid[9..17], &1_012i64.to_le_bytes());
    assert_eq!(&bid[17..25], &300i64.to_le_bytes());
    assert_eq!(&bid[25..33], &i64::MAX.to_le_bytes());
    assert_eq!(&bid[33..41], &7u64.to_le_bytes());
    assert_eq!(&bid[41..], &[0, 0, 0, 0, 0, 0, 0, 0, 0, 0, 255]);
    let ask = &ixs[2].data;
    assert_eq!(ask[8], 1);
    assert_eq!(&ask[9..17], &988i64.to_le_bytes());
    // both place-order instructions share the discriminator
    assert_eq!(&bid[..8], &ask[..8]);
    assert_ne!(&bid[..8], &ixs[0].data[..8]);
    assert_eq!(ixs[2].accounts[3], writable(17));
    assert_eq!(ixs[2].accounts[8], writable(18));
}

#[test]
fn quote_offsets_and_sizes_stay_in_range() {
    assert_eq!(quote_offset(1234), 34);
    assert_eq!(quote_offset(-1234), -34);
    assert_eq!(quote_offset(i64::MIN), -8);
    assert_eq!(quote_offset(i64::MAX), 7);
    assert_eq!(quote_size(0), 10);
    assert_eq!(quote_size(999), 1009);
    assert_eq!(quote_size(u64::MAX), 625);
}

fn bid_price(ixs: &[openbook_simulation::instructions::InstructionPlan]) -> i64 {
    i64::from_le_bytes(ixs[1].data[9..17].try_into().unwrap())
}

fn bid_size(ixs: &[openbook_simulation::instructions::InstructionPlan]) -> i64 {
    i64::from_le_bytes(ixs[1].data[17..25].try_into().unwrap())
}

#[test]
fn market_maker_counts_client_ids() {
    let mut m = MarketMaker::new(user(), market(), [50u8; 32], 3);
    assert_eq!(m.client_id(), 0);
    let a = m.next_orders();
    let b = m.next_orders();
    assert_eq!(m.client_id(), 2);
    assert_eq!(&a[1].data[33..41], &0u64.to_le_bytes());
    assert_eq!(&b[1].data[33..41], &1u64.to_le_bytes());
    for o in [a, b] {
        let offset = bid_price(&o) - 1_000;
        assert!(-100 < offset && offset < 100);
        assert_eq!(i64::from_le_bytes(o[2].data[9..17].try_into().unwrap()), 1_000 - offset);
        let size = bid_size(&o);
        assert!((10..=1009).contains(&size));
        assert_eq!(&o[2].data[25..33], &size.to_le_bytes());
    }
}

#[test]
fn same_seed_gives_same_quotes() {
    let mut a = MarketMaker::new(user(), market(), [50u8; 32], 11);
    let mut b = MarketMaker::new(user(), market(), [50u8; 32], 11);
    for _ in 0..5 {
        let x = a.next_orders();
        let y = b.next_orders();
        assert_eq!(bid_price(&x), bid_price(&y));
        assert_eq!(bid_size(&x), bid_size(&y));
    }
}

#[test]
fn every_user_quotes_on_every_market_with_its_own_seed() {
    let s = market_maker_seeds(2, 3);
    assert_eq!(s, vec![(0, 0, 0), (0, 1, 1), (0, 2, 2), (1, 0, 3), (1, 1, 4), (1, 2, 5)]);
    assert!(market_maker_seeds(0, 3).is_empty());
    assert!(market_maker_seeds(3, 0).is_empty());
}

#[test]
fn rounds_start_a_second_apart() {
    assert_eq!(pause_after_round_ms(0), 1000);
    assert_eq!(pause_after_round_ms(250), 750);
    assert_eq!(pause_after_round_ms(999), 1);
    assert_eq!(pause_after_round_ms(1000), 0);
    assert_eq!(pause_after_round_ms(5000), 0);
}

#[test]
fn instruction_data_starts_with_the_anchor_discriminators() {
    let ixs = create_market_making_instructions(&user(), &market(), [50u8; 32], 7, 12, 300);
    // first eight bytes of SHA-256 of "global:cancel_all_orders" and "global:place_order"
    assert_eq!(&ixs[0].data[..8], &[196, 83, 243, 171, 17, 100, 160, 143]);
    assert_eq!(&ixs[1].data[..8], &[51, 194, 155, 175, 109, 130, 96, 106]);
    assert_eq!(&ixs[2].data[..8], &[51, 194, 155, 175, 109, 130, 96, 106]);
}
