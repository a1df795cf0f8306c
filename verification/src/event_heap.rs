//! The events waiting in a market's event heap, read from the account's data.
use crate::chain_data::Pubkey;
use crate::crank_sink::CrankEvent;
use anchor_lang::AccountDeserialize;
use vstd::prelude::*;

verus! {

/// A node of an event heap as stored: its links and the bytes of its event.
#[derive(Clone, Debug)]
pub struct EventNodeData {
    pub next: u16,
    pub prev: u16,
    pub event: Vec<u8>,
}

/// An event heap account, decoded.
#[derive(Clone, Debug)]
pub struct EventHeapData {
    pub free_head: u16,
    pub used_head: u16,
    pub count: u16,
    pub seq_num: u64,
    pub nodes: Vec<EventNodeData>,
}

/// A node as plain values: next link, previous link, event bytes.
pub open spec fn node_view(n: EventNodeData) -> (u16, u16, Seq<u8>) {
    (n.next, n.prev, n.event@)
}

/// An event heap as plain values: free head, used head, count, sequence
/// number, nodes.
pub open spec fn heap_view(h: EventHeapData) -> (u16, u16, u16, u64, Seq<(u16, u16, Seq<u8>)>) {
    (h.free_head, h.used_head, h.count, h.seq_num, Seq::new(h.nodes@.len(), |i: int| node_view(h.nodes@[i])))
}

/// The number `s` encodes, least significant byte first.
pub open spec fn le_value(s: Seq<u8>) -> nat
    decreases s.len(),
{
    if s.len() == 0 {
        0
    } else {
        s[0] as nat + 256 * le_value(s.drop_first())
    }
}

/// The little-endian `u16` at byte `at` of `d`.
pub open spec fn u16_at(d: Seq<u8>, at: int) -> u16 {
    le_value(d.subrange(at, at + 2)) as u16
}

/// The little-endian `u64` at byte `at` of `d`.
pub open spec fn u64_at(d: Seq<u8>, at: int) -> u64 {
    le_value(d.subrange(at, at + 8)) as u64
}

/// Length of an `EventHeap` account: the 8-byte discriminator, the 16-byte
/// header, 600 nodes of 152 bytes, 64 reserved bytes.
pub const EVENT_HEAP_LEN: usize = 91288;

/// Size of a node in an event heap account.
pub const EVENT_NODE_SIZE: usize = 152;

/// Number of nodes in an event heap.
pub const EVENT_HEAP_NODES: usize = 600;

/// The `EventHeap` account discriminator: the first eight bytes of SHA-256
/// of `account:EventHeap`.
pub open spec fn event_heap_discriminator() -> Seq<u8> {
    seq![119u8, 59, 61, 19, 165, 84, 57, 175]
}

/// Node `i` of an event heap account's data: its next and previous links,
/// then (after 4 bytes of padding) the 144 bytes of its event.
pub open spec fn node_at(data: Seq<u8>, i: int) -> (u16, u16, Seq<u8>) {
    let b = 24 + EVENT_NODE_SIZE * i;
    (u16_at(data, b), u16_at(data, b + 2), data.subrange(b + 8, b + EVENT_NODE_SIZE))
}

/// What deserializing `data` as openbook v2's `EventHeap` account gives:
/// nothing when it is shorter than the account or does not start with its
/// discriminator (bytes after the account are not read); else the header
/// (free head, used head, count at bytes 8, 10, 12, sequence number at
/// byte 16) and the nodes from byte 24 on.
pub open spec fn event_heap_of(data: Seq<u8>) -> Option<(u16, u16, u16, u64, Seq<(u16, u16, Seq<u8>)>)> {
    if data.len() >= EVENT_HEAP_LEN && data.subrange(0, 8) == event_heap_discriminator() {
        Some(
            (
                u16_at(data, 8),
                u16_at(data, 10),
                u16_at(data, 12),
                u64_at(data, 16),
                Seq::new(EVENT_HEAP_NODES as nat, |i: int| node_at(data, i)),
            ),
        )
    } else {
        None
    }
}

/// `anchor_lang::AccountDeserialize::try_deserialize` of
/// `openbook_v2::EventHeap`, with each node's event as its bytes (type
/// byte, then the rest). Claimed: the discriminator check and the Borsh
/// layout of the account, as `event_heap_of` states them.
#[verifier::external_body]
fn decode_event_heap(data: &[u8]) -> (r: Option<EventHeapData>)
    ensures
        match event_heap_of(data@) {
            None => r is None,
            Some(v) => r matches Some(h) && heap_view(h) == v,
        },
{
    let heap = openbook_v2::EventHeap::try_deserialize(&mut &data[..]).ok()?;
    let nodes = heap.nodes.iter().map(|n| EventNodeData {
        next: n.next,
        prev: n.prev,
        event: [&[n.event.event_type][..], &n.event.padding[..]].concat(),
    }).collect();
    let h = heap.header;
    Some(EventHeapData { free_head: h.free_head, used_head: h.used_head, count: h.count, seq_num: h.seq_num, nodes })
}

/// Size of an event in bytes.
pub const EVENT_SIZE: usize = 144;

/// The 32-byte key at `at` in `e`.
pub open spec fn key_at(e: Seq<u8>, at: int) -> Pubkey {
    choose|k: Pubkey| k@ == e.subrange(at, at + 32)
}

/// The event stored in `e`: a fill (type 0) with its maker at byte 24 and
/// its taker at byte 64, or an out event (type 1) with its owner at byte
/// 24; nothing for a short event or another type.
pub open spec fn event_of(e: Seq<u8>) -> Option<CrankEvent> {
    if e.len() < EVENT_SIZE {
        None
    } else if e[0] == 0 {
        Some(CrankEvent::Fill { maker: key_at(e, 24), taker: key_at(e, 64) })
    } else if e[0] == 1 {
        Some(CrankEvent::Out { owner: key_at(e, 24) })
    } else {
        None
    }
}

/// The bytes of the events of `n` used nodes, from node `slot` along the
/// `next` links; nothing when a link leaves the nodes.
pub open spec fn heap_raw_events(nodes: Seq<(u16, u16, Seq<u8>)>, slot: int, n: nat) -> Option<Seq<Seq<u8>>>
    decreases n,
{
    if n == 0 {
        Some(Seq::empty())
    } else if !(0 <= slot < nodes.len()) {
        None
    } else {
        match heap_raw_events(nodes, nodes[slot].0 as int, (n - 1) as nat) {
            None => None,
            Some(rest) => Some(seq![nodes[slot].2] + rest),
        }
    }
}

/// The bytes of the events waiting in an event heap account, oldest first:
/// `count` nodes from the used head; nothing when the data is not such an
/// account or a link leaves the nodes.
pub open spec fn raw_events_of(data: Seq<u8>) -> Option<Seq<Seq<u8>>> {
    match event_heap_of(data) {
        None => None,
        Some(h) => heap_raw_events(h.4, h.1 as int, h.2 as nat),
    }
}

/// Byte strings as plain values.
pub open spec fn bytes_view(v: Seq<Vec<u8>>) -> Seq<Seq<u8>> {
    Seq::new(v.len(), |i: int| v[i]@)
}

/// The type byte of an event: 0 for a fill, 1 for an out event.
pub open spec fn is_fill_bytes(e: Seq<u8>) -> bool {
    e.len() > 0 && e[0] == 0
}

fn key_from(e: &Vec<u8>, at: usize) -> (r: Pubkey)
    requires
        at + 32 <= e@.len(),
    ensures
        r == key_at(e@, at as int),
{
    let n = e.len();
    let mut k: Pubkey = [0u8; 32];
    let mut i: usize = 0;
    while i < 32
        invariant
            i <= 32,
            n == e@.len(),
            at + 32 <= e@.len(),
            forall|j: int| 0 <= j < i ==> k@[j] == e@[at + j],
        decreases 32 - i,
    {
        k[i] = e[at + i];
        i = i + 1;
    }
    assert(k@ =~= e@.subrange(at as int, at + 32));
    k
}

/// The event stored in `e` (see `event_of`).
pub fn read_event(e: &Vec<u8>) -> (r: Option<CrankEvent>)
    ensures
        r == event_of(e@),
{
    if e.len() < EVENT_SIZE {
        None
    } else if e[0] == 0 {
        Some(CrankEvent::Fill { maker: key_from(e, 24), taker: key_from(e, 64) })
    } else if e[0] == 1 {
        Some(CrankEvent::Out { owner: key_from(e, 24) })
    } else {
        None
    }
}

/// The bytes of the events of a decoded heap (see `heap_raw_events`).
pub fn events_of_heap(h: &EventHeapData) -> (r: Option<Vec<Vec<u8>>>)
    ensures
        match heap_raw_events(heap_view(*h).4, h.used_head as int, h.count as nat) {
            None => r is None,
            Some(s) => r matches Some(v) && bytes_view(v@) == s,
        },
{
    let ghost nodes = heap_view(*h).4;
    let ghost target = heap_raw_events(nodes, h.used_head as int, h.count as nat);
    let mut out: Vec<Vec<u8>> = Vec::new();
    let mut slot: usize = h.used_head as usize;
    let mut left: u16 = h.count;
    while left > 0
        invariant
            nodes == heap_view(*h).4,
            target == heap_raw_events(nodes, h.used_head as int, h.count as nat),
            target == match heap_raw_events(nodes, slot as int, left as nat) {
                None => None,
                Some(rest) => Some(bytes_view(out@) + rest),
            },
        decreases left,
    {
        if slot >= h.nodes.len() {
            return None;
        }
        let node = &h.nodes[slot];
        assert(nodes[slot as int] == node_view(*node));
        let ev = node.event.clone();
        proof {
            assert(ev@ == nodes[slot as int].2);
            assert(bytes_view(out@.push(ev)) =~= bytes_view(out@).push(ev@));
            match heap_raw_events(nodes, node.next as int, (left - 1) as nat) {
                None => {},
                Some(rest) => {
                    assert(bytes_view(out@).push(ev@) + rest =~= bytes_view(out@) + (seq![
                        nodes[slot as int].2,
                    ] + rest));
                },
            }
        }
        out.push(ev);
        slot = node.next as usize;
        left = left - 1;
    }
    assert(bytes_view(out@) + Seq::<Seq<u8>>::empty() =~= bytes_view(out@));
    Some(out)
}

/// The bytes of the events waiting in an event heap account, oldest first
/// (see `raw_events_of`).
pub fn raw_events(data: &Vec<u8>) -> (r: Option<Vec<Vec<u8>>>)
    ensures
        match raw_events_of(data@) {
            None => r is None,
            Some(s) => r matches Some(v) && bytes_view(v@) == s,
        },
{
    match decode_event_heap(data.as_slice()) {
        None => None,
        Some(h) => events_of_heap(&h),
    }
}

/// Reading a heap gives exactly as many events as its count says, or
/// nothing.
pub proof fn law_heap_events_count(nodes: Seq<(u16, u16, Seq<u8>)>, slot: int, n: nat)
    ensures
        heap_raw_events(nodes, slot, n) matches Some(s) ==> s.len() == n,
    decreases n,
{
    if n > 0 && 0 <= slot < nodes.len() {
        law_heap_events_count(nodes, nodes[slot].0 as int, (n - 1) as nat);
    }
}

} // verus!
