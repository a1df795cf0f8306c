//! The keeper's crank: when a market's event queue (its event heap) holds a
//! fill, or more events than a small backlog, it plans a consume-events
//! instruction naming the accounts that the first events touch.
use crate::chain_data::{keys_equal, AccountData, Pubkey};
use crate::event_heap::{bytes_view, event_of, is_fill_bytes, raw_events, raw_events_of, read_event};
use crate::instructions::{
    consume_events_bytes, consume_events_instruction, consume_events_metas, writable,
    InstructionPlan,
};
use crate::openbook_config::Obv2Config;
use vstd::prelude::*;

verus! {

/// Events are cranked without a fill only when more than this many wait.
pub const MAX_BACKLOG: usize = 2;

/// Events consumed by one instruction.
pub const MAX_EVENTS_PER_TX: usize = 50;

/// Event accounts named by one instruction are collected until there are
/// at least this many.
pub const MAX_ACCS_PER_TX: usize = 24;

/// An event of an event queue, by the accounts it touches.
#[derive(Clone, Copy, Debug)]
pub enum CrankEvent {
    Fill { maker: Pubkey, taker: Pubkey },
    Out { owner: Pubkey },
}

/// Why no instruction is planned.
#[derive(Clone, Copy, Debug, PartialEq, Eq, Structural)]
pub enum CrankSkip {
    /// No fill and no backlog of events.
    Throttled,
    /// The account is not an event heap whose events can be read.
    Undecodable,
}

/// Plans cranks for the event queues of the configured markets.
pub struct OpenbookV2CrankSink {
    /// (event queue, market) for each market, in configuration order.
    map_event_q_to_market: Vec<(Pubkey, Pubkey)>,
    program_id: Pubkey,
}

/// Some waiting event is a fill, by its type byte.
pub open spec fn contains_fill(events: Seq<Seq<u8>>) -> bool {
    exists|i: int| 0 <= i < events.len() && is_fill_bytes(events[i])
}

/// Neither a fill nor more than `MAX_BACKLOG` events: nothing to crank.
pub open spec fn is_throttled(events: Seq<Seq<u8>>) -> bool {
    !contains_fill(events) && events.len() <= MAX_BACKLOG
}

pub open spec fn add_unique(s: Seq<Pubkey>, k: Pubkey) -> Seq<Pubkey> {
    if s.contains(k) {
        s
    } else {
        s.push(k)
    }
}

/// `s` with the accounts of `e` added: maker and taker of a fill, owner of
/// an out event.
pub open spec fn add_event_accounts(s: Seq<Pubkey>, e: CrankEvent) -> Seq<Pubkey> {
    match e {
        CrankEvent::Fill { maker, taker } => add_unique(add_unique(s, maker), taker),
        CrankEvent::Out { owner } => add_unique(s, owner),
    }
}

/// The accounts of the first `n` events, each once, in order of first
/// appearance; an event is read, and adds its accounts, only while fewer
/// than `MAX_ACCS_PER_TX` are collected. Nothing when an event that is read
/// has an unknown type.
pub open spec fn collect_accounts(events: Seq<Seq<u8>>, n: nat) -> Option<Seq<Pubkey>>
    decreases n,
{
    if n == 0 {
        Some(seq![])
    } else {
        match collect_accounts(events, (n - 1) as nat) {
            None => None,
            Some(s) => if s.len() < MAX_ACCS_PER_TX {
                match event_of(events[n - 1]) {
                    None => None,
                    Some(e) => Some(add_event_accounts(s, e)),
                }
            } else {
                Some(s)
            },
        }
    }
}

/// The number of events that one instruction consumes, of `len` waiting.
pub open spec fn consumed(len: nat) -> nat {
    if len < MAX_EVENTS_PER_TX {
        len
    } else {
        MAX_EVENTS_PER_TX as nat
    }
}

proof fn lemma_collect_none(events: Seq<Seq<u8>>, k: nat, n: nat)
    requires
        k <= n,
        collect_accounts(events, k) is None,
    ensures
        collect_accounts(events, n) is None,
    decreases n,
{
    if k < n {
        lemma_collect_none(events, k, (n - 1) as nat);
    }
}

pub open spec fn pairs_of(config: Obv2Config) -> Seq<(Pubkey, Pubkey)> {
    Seq::new(
        config.markets@.len(),
        |i: int| (config.markets@[i].event_queue, config.markets@[i].market_pk),
    )
}

/// The market of the last pair with event queue `q`, if any.
pub open spec fn market_of(pairs: Seq<(Pubkey, Pubkey)>, q: Pubkey) -> Option<Pubkey>
    decreases pairs.len(),
{
    if pairs.len() == 0 {
        None
    } else if pairs.last().0 == q {
        Some(pairs.last().1)
    } else {
        market_of(pairs.drop_last(), q)
    }
}

fn push_unique(v: &mut Vec<Pubkey>, k: Pubkey)
    ensures
        final(v)@ == add_unique(old(v)@, k),
{
    let mut i: usize = 0;
    while i < v.len()
        invariant
            i <= v@.len(),
            forall|j: int| 0 <= j < i ==> v@[j] != k,
        decreases v@.len() - i,
    {
        if keys_equal(&v[i], &k) {
            assert(v@.contains(k));
            return;
        }
        i = i + 1;
    }
    assert(!v@.contains(k));
    v.push(k);
}

impl OpenbookV2CrankSink {
    pub closed spec fn pairs(&self) -> Seq<(Pubkey, Pubkey)> {
        self.map_event_q_to_market@
    }

    pub closed spec fn spec_program_id(&self) -> Pubkey {
        self.program_id
    }

    /// Cranks for the markets of `obv2_config`, with program `program_id`.
    pub fn new(obv2_config: &Obv2Config, program_id: Pubkey) -> (r: Self)
        ensures
            r.pairs() == pairs_of(*obv2_config),
            r.spec_program_id() == program_id,
    {
        let mut map_event_q_to_market: Vec<(Pubkey, Pubkey)> = Vec::new();
        let mut i: usize = 0;
        while i < obv2_config.markets.len()
            invariant
                i <= obv2_config.markets@.len(),
                map_event_q_to_market@ == pairs_of(*obv2_config).take(i as int),
            decreases obv2_config.markets@.len() - i,
        {
            let market = &obv2_config.markets[i];
            map_event_q_to_market.push((market.event_queue, market.market_pk));
            proof {
                assert(map_event_q_to_market@ =~= pairs_of(*obv2_config).take(i + 1));
            }
            i = i + 1;
        }
        assert(pairs_of(*obv2_config).take(i as int) =~= pairs_of(*obv2_config));
        OpenbookV2CrankSink { map_event_q_to_market, program_id }
    }

    /// The market whose event queue is `event_queue`.
    pub fn market_for(&self, event_queue: &Pubkey) -> (r: Option<Pubkey>)
        ensures
            r == market_of(self.pairs(), *event_queue),
    {
        let ghost p = self.pairs();
        let mut j = self.map_event_q_to_market.len();
        assert(p.take(j as int) =~= p);
        while j > 0
            invariant
                j <= p.len(),
                p == self.pairs(),
                market_of(p, *event_queue) == market_of(p.take(j as int), *event_queue),
            decreases j,
        {
            proof {
                let t = p.take(j as int);
                assert(t.drop_last() =~= p.take(j - 1));
                assert(t.last() == p[j - 1]);
            }
            if keys_equal(&self.map_event_q_to_market[j - 1].0, event_queue) {
                return Some(self.map_event_q_to_market[j - 1].1);
            }
            j = j - 1;
        }
        assert(p.take(0) =~= Seq::<(Pubkey, Pubkey)>::empty());
        None
    }

    /// What `process` gives for the event heap `event_queue` holding
    /// `data`.
    pub open spec fn crank_outcome(
        &self,
        event_queue: Pubkey,
        data: Seq<u8>,
        r: Result<(Pubkey, InstructionPlan), CrankSkip>,
    ) -> bool {
        match raw_events_of(data) {
            None => r == Err::<(Pubkey, InstructionPlan), CrankSkip>(CrankSkip::Undecodable),
            Some(ev) => if is_throttled(ev) {
                r == Err::<(Pubkey, InstructionPlan), CrankSkip>(CrankSkip::Throttled)
            } else {
                match collect_accounts(ev, consumed(ev.len())) {
                    None => r == Err::<(Pubkey, InstructionPlan), CrankSkip>(
                        CrankSkip::Undecodable,
                    ),
                    Some(acc) => r matches Ok((market, ix)) && {
                        &&& market == market_of(self.pairs(), event_queue)->0
                        &&& ix.program_id == self.spec_program_id()
                        &&& ix.accounts@ == consume_events_metas(
                            None,
                            market,
                            event_queue,
                            self.spec_program_id(),
                        ) + Seq::new(acc.len(), |i: int| writable(acc[i]))
                        &&& ix.data@ == consume_events_bytes(MAX_EVENTS_PER_TX as u64)
                    },
                }
            },
        }
    }

    /// The crank for the event heap account `event_queue` whose current
    /// write is `account`: none when it holds no fill (by the events' type
    /// bytes) and no more than `MAX_BACKLOG` events; else its market and a
    /// consume-events instruction for up to `MAX_EVENTS_PER_TX` events,
    /// naming the accounts that the first of them touch (see
    /// `collect_accounts`). `Undecodable` when the account is not an event
    /// heap, or when an event that the collection reads has an unknown
    /// type.
    pub fn process(&self, event_queue: &Pubkey, account: &AccountData) -> (r: Result<
        (Pubkey, InstructionPlan),
        CrankSkip,
    >)
        requires
            (raw_events_of(account.account.data@) matches Some(ev) && !is_throttled(ev))
                ==> market_of(self.pairs(), *event_queue) is Some,
        ensures
            self.crank_outcome(*event_queue, account.account.data@, r),
    {
        let events = match raw_events(&account.account.data) {
            None => {
                return Err(CrankSkip::Undecodable);
            },
            Some(events) => events,
        };
        let ghost ev = bytes_view(events@);
        let mut contains_fill_events = false;
        let mut i: usize = 0;
        while i < events.len()
            invariant
                i <= events@.len(),
                ev == bytes_view(events@),
                contains_fill_events == exists|j: int| 0 <= j < i && is_fill_bytes(ev[j]),
            decreases events@.len() - i,
        {
            assert(ev[i as int] == events@[i as int]@);
            if events[i].len() > 0 && events[i][0] == 0 {
                assert(is_fill_bytes(ev[i as int]));
                contains_fill_events = true;
            }
            i = i + 1;
        }
        let len = events.len();
        if !contains_fill_events && len <= MAX_BACKLOG {
            return Err(CrankSkip::Throttled);
        }
        assert(ev.len() == events@.len());
        assert(!is_throttled(ev));
        let n = if len < MAX_EVENTS_PER_TX {
            len
        } else {
            MAX_EVENTS_PER_TX
        };
        let mut events_accounts: Vec<Pubkey> = Vec::new();
        let mut k: usize = 0;
        while k < n
            invariant
                k <= n,
                ev == bytes_view(events@),
                raw_events_of(account.account.data@) == Some(ev),
                !is_throttled(ev),
                n == consumed(ev.len()),
                n <= events@.len(),
                collect_accounts(ev, k as nat) == Some(events_accounts@),
            decreases n - k,
        {
            if events_accounts.len() < MAX_ACCS_PER_TX {
                assert(ev[k as int] == events@[k as int]@);
                match read_event(&events[k]) {
                    None => {
                        proof {
                            assert(event_of(ev[k as int]) is None);
                            assert(collect_accounts(ev, (k + 1) as nat) is None);
                            lemma_collect_none(ev, (k + 1) as nat, n as nat);
                        }
                        return Err(CrankSkip::Undecodable);
                    },
                    Some(CrankEvent::Fill { maker, taker }) => {
                        push_unique(&mut events_accounts, maker);
                        push_unique(&mut events_accounts, taker);
                    },
                    Some(CrankEvent::Out { owner }) => {
                        push_unique(&mut events_accounts, owner);
                    },
                }
            }
            k = k + 1;
        }
        let market = match self.market_for(event_queue) {
            Some(m) => m,
            None => {
                assert(false);
                [0u8; 32]
            },
        };
        let ix = consume_events_instruction(
            self.program_id,
            market,
            *event_queue,
            &events_accounts,
            MAX_EVENTS_PER_TX as u64,
        );
        Ok((market, ix))
    }

    /// `process`, for an event heap of a known market; `None` for the heap
    /// of a market that is not configured.
    pub fn try_process(&self, event_queue: &Pubkey, account: &AccountData) -> (r: Option<
        Result<(Pubkey, InstructionPlan), CrankSkip>,
    >)
        ensures
            r is None <==> market_of(self.pairs(), *event_queue) is None,
            r matches Some(res) ==> self.crank_outcome(*event_queue, account.account.data@, res),
    {
        match self.market_for(event_queue) {
            None => None,
            Some(_) => Some(self.process(event_queue, account)),
        }
    }
}

/// A readable event heap is skipped as throttled exactly when none of its
/// waiting events, at whatever position, has the fill type byte (0), and
/// no more than `MAX_BACKLOG` events wait: a fill anywhere, or a backlog,
/// gets the heap cranked (or found undecodable), never throttled.
pub proof fn law_throttled_only_without_fill_or_backlog(
    sink: OpenbookV2CrankSink,
    event_queue: Pubkey,
    data: Seq<u8>,
    r: Result<(Pubkey, InstructionPlan), CrankSkip>,
)
    requires
        sink.crank_outcome(event_queue, data, r),
        raw_events_of(data) is Some,
    ensures
        ({
            let ev = raw_events_of(data)->0;
            r == Err::<(Pubkey, InstructionPlan), CrankSkip>(CrankSkip::Throttled) <==> (forall|i: int|
                0 <= i < ev.len() ==> !(#[trigger] ev[i].len() > 0 && ev[i][0] == 0)) && ev.len()
                <= MAX_BACKLOG
        }),
{
    let ev = raw_events_of(data)->0;
    if (forall|i: int| 0 <= i < ev.len() ==> !(#[trigger] ev[i].len() > 0 && ev[i][0] == 0)) {
        assert(!contains_fill(ev));
    } else {
        let i = choose|i: int| 0 <= i < ev.len() && (#[trigger] ev[i].len() > 0 && ev[i][0] == 0);
        assert(is_fill_bytes(ev[i]));
        assert(contains_fill(ev));
    }
}

/// No account is named twice, and no more than `MAX_ACCS_PER_TX + 1` are
/// named: collection stops once `MAX_ACCS_PER_TX` are reached, and the
/// event that reaches it adds at most two.
pub proof fn law_event_accounts_bounded(events: Seq<Seq<u8>>, n: nat)
    requires
        n <= events.len(),
    ensures
        collect_accounts(events, n) matches Some(s) ==> s.no_duplicates() && s.len()
            <= MAX_ACCS_PER_TX + 1,
    decreases n,
{
    if n > 0 {
        law_event_accounts_bounded(events, (n - 1) as nat);
        if let Some(s) = collect_accounts(events, (n - 1) as nat) {
            if s.len() < MAX_ACCS_PER_TX {
                match event_of(events[n - 1]) {
                    Some(CrankEvent::Fill { maker, taker }) => {
                        lemma_add_unique(s, maker);
                        lemma_add_unique(add_unique(s, maker), taker);
                    },
                    Some(CrankEvent::Out { owner }) => {
                        lemma_add_unique(s, owner);
                    },
                    None => {},
                }
            }
        }
    }
}

proof fn lemma_add_unique(s: Seq<Pubkey>, k: Pubkey)
    requires
        s.no_duplicates(),
    ensures
        add_unique(s, k).no_duplicates(),
        add_unique(s, k).len() <= s.len() + 1,
{
    if !s.contains(k) {
        let t = s.push(k);
        assert forall|i: int, j: int| 0 <= i < t.len() && 0 <= j < t.len() && i != j implies t[i]
            != t[j] by {
            if i == s.len() {
                assert(t[j] == s[j]);
            } else if j == s.len() {
                assert(t[i] == s[i]);
            } else {
                assert(t[i] == s[i] && t[j] == s[j]);
            }
        }
    }
}

} // verus!
