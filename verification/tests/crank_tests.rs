use openbook_simulation::crank_sink::{
    CrankEvent, CrankSkip, OpenbookV2CrankSink, MAX_ACCS_PER_TX, MAX_EVENTS_PER_TX,
};
use openbook_simulation::chain_data::{AccountData, AccountState};
use openbook_simulation::event_heap::{raw_events, read_event};
use openbook_simulation::instructions::{
    with_compute_unit_price, AccountMetaPlan, InstructionPlan, COMPUTE_BUDGET_PROGRAM_ID,
};
use openbook_simulation::openbook_config::{KeypairBytes, Obv2Config, Obv2Market};

fn market(pk: u8, event_queue: u8) -> Obv2Market {
    Obv2Market {
        name: format!("m{pk}"),
        admin: KeypairBytes { bytes: vec![0u8; 64] },
        market_pk: [pk; 32],
        oracle: [0u8; 32],
        asks: [0u8; 32],
        bids: [0u8; 32],
        event_queue: [event_queue; 32],
        base_vault: [0u8; 32],
        quote_vault: [0u8; 32],
        base_mint: [0u8; 32],
        quote_mint: [0u8; 32],
        market_index: 0,
        price: 1,
    }
}

fn sink() -> OpenbookV2CrankSink {
    let config = Obv2Config {
        programs: vec![],
        users: vec![],
        mints: vec![],
        markets: vec![market(1, 101), market(2, 102)],
    };
    OpenbookV2CrankSink::new(&config, [7u8; 32])
}

fn key(i: usize) -> [u8; 32] {
    let mut k = [0u8; 32];
    k[0] = (i % 256) as u8;
    k[1] = (i / 256) as u8;
    k[31] = 1;
    k
}

#[test]
fn event_queues_map_to_their_markets() {
    let s = sink();
    assert_eq!(s.market_for(&[101u8; 32]), Some([1u8; 32]));
    assert_eq!(s.market_for(&[102u8; 32]), Some([2u8; 32]));
    assert_eq!(s.market_for(&[103u8; 32]), None);
}

#[test]
fn a_later_market_with_the_same_queue_wins() {
    let config = Obv2Config {
        programs: vec![],
        users: vec![],
        mints: vec![],
        markets: vec![market(1, 101), market(2, 101)],
    };
    let s = OpenbookV2CrankSink::new(&config, [7u8; 32]);
    assert_eq!(s.market_for(&[101u8; 32]), Some([2u8; 32]));
}

fn heap_with(slots: &[usize], events: &[(u8, [u8; 32], [u8; 32])], next_of_last: u16, count: u16) -> Vec<u8> {
    let mut nodes: [openbook_v2::EventNode; 600] =
        std::array::from_fn(|_| openbook_v2::EventNode::default());
    for (i, (&slot, &(kind, first, second))) in slots.iter().zip(events.iter()).enumerate() {
        let mut padding = [0u8; 143];
        padding[23..55].copy_from_slice(&first);
        padding[63..95].copy_from_slice(&second);
        nodes[slot].event = openbook_v2::AnyEvent { event_type: kind, padding };
        nodes[slot].next = if i + 1 < slots.len() { slots[i + 1] as u16 } else { next_of_last };
    }
    let heap = openbook_v2::EventHeap {
        header: openbook_v2::EventHeapHeader {
            free_head: 0,
            used_head: slots.first().copied().unwrap_or(0) as u16,
            count,
            padd: 0,
            seq_num: 0,
        },
        nodes,
        reserved: [0u8; 64],
    };
    let mut buf: Vec<u8> = Vec::new();
    anchor_lang::AccountSerialize::try_serialize(&heap, &mut buf).unwrap();
    buf
}

fn heap_bytes(slots: &[usize], events: &[(u8, [u8; 32], [u8; 32])], next_of_last: u16) -> Vec<u8> {
    heap_with(slots, events, next_of_last, slots.len() as u16)
}

fn account(data: Vec<u8>) -> AccountData {
    AccountData {
        slot: 1,
        write_version: 0,
        account: AccountState { lamports: 1, data, owner: [0u8; 32], executable: false, rent_epoch: 0 },
    }
}

fn meta(pubkey: [u8; 32], is_writable: bool) -> AccountMetaPlan {
    AccountMetaPlan { pubkey, is_signer: false, is_writable }
}

#[test]
fn heap_events_are_read_along_the_used_list() {
    let data = heap_bytes(
        &[5, 2, 9],
        &[(1, key(1), [0u8; 32]), (0, key(2), key(3)), (1, key(4), [0u8; 32])],
        0,
    );
    let events = raw_events(&data).expect("a readable heap");
    assert_eq!(events.len(), 3);
    assert_eq!(events.iter().map(|e| e[0]).collect::<Vec<u8>>(), vec![1, 0, 1]);
    assert!(matches!(read_event(&events[0]), Some(CrankEvent::Out { owner }) if owner == key(1)));
    assert!(matches!(read_event(&events[1]), Some(CrankEvent::Fill { maker, taker }) if maker == key(2) && taker == key(3)));
    assert!(matches!(read_event(&events[2]), Some(CrankEvent::Out { owner }) if owner == key(4)));
    assert!(read_event(&vec![2u8; 144]).is_none());
    assert!(read_event(&vec![0u8; 100]).is_none());
}

#[test]
fn unreadable_heaps_are_refused() {
    assert!(raw_events(&vec![0u8; 100]).is_none());
    // a link out of the node array
    assert!(raw_events(&heap_with(&[3], &[(1, key(1), key(2))], 700, 2)).is_none());
    // a count of zero reads nothing
    assert_eq!(raw_events(&heap_with(&[3], &[(7, key(1), key(2))], 0, 0)).map(|e| e.len()), Some(0));
}

fn outs(owners: &[usize]) -> Vec<u8> {
    let slots: Vec<usize> = (0..owners.len()).collect();
    let events: Vec<(u8, [u8; 32], [u8; 32])> = owners.iter().map(|&o| (1, key(o), [0u8; 32])).collect();
    heap_bytes(&slots, &events, 0)
}

#[test]
fn few_out_events_are_throttled() {
    let s = sink();
    assert!(matches!(s.process(&[101u8; 32], &account(outs(&[]))), Err(CrankSkip::Throttled)));
    assert!(matches!(s.process(&[101u8; 32], &account(outs(&[1, 2]))), Err(CrankSkip::Throttled)));
}

#[test]
fn an_unknown_event_type_without_a_fill_is_throttled() {
    let s = sink();
    let data = heap_bytes(&[3], &[(2, key(1), key(2))], 0);
    assert!(matches!(s.process(&[101u8; 32], &account(data)), Err(CrankSkip::Throttled)));
}

#[test]
fn an_unknown_event_type_is_refused_only_where_it_is_read() {
    let s = sink();
    // read while collecting accounts: refused
    let read = heap_bytes(&[0, 1], &[(0, key(1), key(2)), (2, key(3), key(4))], 0);
    assert!(matches!(s.process(&[101u8; 32], &account(read)), Err(CrankSkip::Undecodable)));
    // after twelve fills the collection stops reading: accepted
    let mut events: Vec<(u8, [u8; 32], [u8; 32])> =
        (0..12).map(|i| (0, key(2 * i), key(2 * i + 1))).collect();
    events.push((2, key(500), key(501)));
    let slots: Vec<usize> = (0..events.len()).collect();
    let (_, ix) = s
        .process(&[101u8; 32], &account(heap_bytes(&slots, &events, 0)))
        .expect("the unknown event is not read");
    assert_eq!(ix.accounts.len(), 3 + MAX_ACCS_PER_TX);
}

#[test]
fn a_backlog_is_cranked_with_each_account_once() {
    let s = sink();
    let (market, ix) = s.process(&[101u8; 32], &account(outs(&[1, 2, 1]))).expect("a backlog is cranked");
    assert_eq!(market, [1u8; 32]);
    assert_eq!(ix.accounts[3..].to_vec(), vec![meta(key(1), true), meta(key(2), true)]);
}

#[test]
fn collected_accounts_stop_near_the_limit() {
    let s = sink();
    let events: Vec<(u8, [u8; 32], [u8; 32])> = (0..40).map(|i| (0, key(2 * i), key(2 * i + 1))).collect();
    let slots: Vec<usize> = (0..40).collect();
    let (_, ix) = s.process(&[101u8; 32], &account(heap_bytes(&slots, &events, 0))).expect("fills are cranked");
    // twelve fills bring 24 accounts; collection then stops
    assert_eq!(ix.accounts.len(), 3 + MAX_ACCS_PER_TX);
    assert_eq!(ix.accounts[3 + 23], meta(key(23), true));

    // an odd count: the fill that crosses the limit adds both its accounts
    let mut events = vec![(1, key(1000), [0u8; 32])];
    events.extend((0..40).map(|i| (0u8, key(2 * i), key(2 * i + 1))));
    let slots: Vec<usize> = (0..41).collect();
    let (_, ix) = s.process(&[101u8; 32], &account(heap_bytes(&slots, &events, 0))).expect("fills are cranked");
    assert_eq!(ix.accounts.len(), 3 + MAX_ACCS_PER_TX + 1);
}

#[test]
fn only_the_first_events_are_consumed() {
    let s = sink();
    let mut owners = vec![1usize; MAX_EVENTS_PER_TX];
    owners.push(2);
    let (_, ix) = s.process(&[101u8; 32], &account(outs(&owners))).expect("a backlog is cranked");
    assert_eq!(ix.accounts[3..].to_vec(), vec![meta(key(1), true)]);
}

#[test]
fn a_heap_with_a_fill_is_cranked() {
    let s = sink();
    let data = heap_bytes(&[3], &[(0, key(1), key(2))], 0);
    let (market, ix) = s.process(&[102u8; 32], &account(data)).expect("a fill is cranked");
    assert_eq!(market, [2u8; 32]);
    assert_eq!(ix.program_id, [7u8; 32]);
    assert_eq!(
        ix.accounts,
        vec![
            meta([7u8; 32], false),
            meta([2u8; 32], true),
            meta([102u8; 32], true),
            meta(key(1), true),
            meta(key(2), true),
        ]
    );
    assert_eq!(ix.data.len(), 16);
    assert_eq!(&ix.data[8..], &50u64.to_le_bytes());
    // first eight bytes of SHA-256 of "global:consume_events"
    assert_eq!(&ix.data[..8], &[221, 145, 177, 52, 31, 47, 63, 201]);
}

#[test]
fn a_quiet_heap_or_bad_data_is_skipped() {
    let s = sink();
    let quiet = heap_bytes(&[3], &[(1, key(1), [0u8; 32])], 0);
    assert!(matches!(s.process(&[101u8; 32], &account(quiet)), Err(CrankSkip::Throttled)));
    assert!(matches!(s.process(&[101u8; 32], &account(vec![1, 2, 3])), Err(CrankSkip::Undecodable)));
    let busy = heap_bytes(&[3], &[(0, key(1), key(2))], 0);
    assert!(s.try_process(&[103u8; 32], &account(busy.clone())).is_none());
    assert!(matches!(s.try_process(&[101u8; 32], &account(busy)), Some(Ok(_))));
}

#[test]
fn the_crank_pays_its_priority_fee() {
    let ix = InstructionPlan { program_id: [7u8; 32], accounts: vec![], data: vec![1, 2] };
    let ixs = with_compute_unit_price(ix, 1_000);
    assert_eq!(ixs.len(), 2);
    assert_eq!(ixs[0].data, vec![1, 2]);
    assert_eq!(ixs[1].program_id, COMPUTE_BUDGET_PROGRAM_ID);
    assert!(ixs[1].accounts.is_empty());
    // SetComputeUnitPrice is variant 3 of the compute budget instruction
    assert_eq!(ixs[1].data[0], 3);
    assert_eq!(&ixs[1].data[1..], &1_000u64.to_le_bytes());
}

#[test]
fn a_heap_laid_out_by_hand_is_read() {
    let mut data = vec![0u8; 91_288];
    data[..8].copy_from_slice(&[119, 59, 61, 19, 165, 84, 57, 175]);
    data[10..12].copy_from_slice(&5u16.to_le_bytes());
    data[12..14].copy_from_slice(&2u16.to_le_bytes());
    for (node, next, kind, first) in [(5usize, 599u16, 1u8, key(8)), (599, 0, 0, key(9))] {
        let b = 24 + 152 * node;
        data[b..b + 2].copy_from_slice(&next.to_le_bytes());
        data[b + 8] = kind;
        data[b + 8 + 24..b + 8 + 56].copy_from_slice(&first);
    }
    let events = raw_events(&data).expect("a readable heap");
    assert_eq!(events.len(), 2);
    assert!(matches!(read_event(&events[0]), Some(CrankEvent::Out { owner }) if owner == key(8)));
    assert!(matches!(read_event(&events[1]), Some(CrankEvent::Fill { maker, .. }) if maker == key(9)));
    assert!(raw_events(&data[..91_287].to_vec()).is_none());
    let mut other = data.clone();
    other[0] = 0;
    assert!(raw_events(&other).is_none());
}
