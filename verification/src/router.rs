//! Routing strategies and the integer bookkeeping of the router: round-robin
//! selection, the deterministic pseudo-random sequence, and route counters.

use vstd::prelude::*;
use crate::store::{KeyedStore, has_key, key_index, lookup, store_insert, keys_unique, lemma_key_index_exists};

verus! {

/// Available routing strategies
#[derive(Clone, Copy, Debug, PartialEq, Eq, Structural)]
pub enum RoutingStrategy {
    /// Route to the single best-matching agent
    BestMatch,
    /// Route to the best-matching available (idle) agent
    BestAvailable,
    /// Route using round-robin among qualified agents
    RoundRobin,
    /// Route to distribute load evenly across agents
    LoadBalanced,
    /// Route using softmax-weighted probabilistic selection
    Probabilistic,
}

/// The display label of a strategy.
pub open spec fn strategy_label(s: RoutingStrategy) -> Seq<char> {
    match s {
        RoutingStrategy::BestMatch => "best_match"@,
        RoutingStrategy::BestAvailable => "best_available"@,
        RoutingStrategy::RoundRobin => "round_robin"@,
        RoutingStrategy::LoadBalanced => "load_balanced"@,
        RoutingStrategy::Probabilistic => "probabilistic"@,
    }
}

impl RoutingStrategy {
    /// The label under which the strategy is displayed and counted
    pub fn as_str(&self) -> (r: &'static str)
        ensures
            r@ == strategy_label(*self),
    {
        match self {
            RoutingStrategy::BestMatch => "best_match",
            RoutingStrategy::BestAvailable => "best_available",
            RoutingStrategy::RoundRobin => "round_robin",
            RoutingStrategy::LoadBalanced => "load_balanced",
            RoutingStrategy::Probabilistic => "probabilistic",
        }
    }
}

/// Distinct strategies have distinct labels.
pub proof fn lemma_strategy_labels_distinct(a: RoutingStrategy, b: RoutingStrategy)
    ensures
        strategy_label(a) == strategy_label(b) ==> a == b,
{
    reveal_strlit("best_match");
    reveal_strlit("best_available");
    reveal_strlit("round_robin");
    reveal_strlit("load_balanced");
    reveal_strlit("probabilistic");
    assert("best_match"@.len() == 10);
    assert("best_available"@.len() == 14);
    assert("round_robin"@.len() == 11);
    assert("load_balanced"@.len() == 13);
    assert("probabilistic"@.len() == 13);
    assert("load_balanced"@[0] == 'l');
    assert("probabilistic"@[0] == 'p');
}

/// Round-robin position: successive calls walk the candidate list cyclically.
#[derive(Clone, Debug)]
pub struct RoundRobin {
    counter: usize,
}

impl RoundRobin {
    /// The number of selections made so far.
    pub closed spec fn count(&self) -> nat {
        self.counter as nat
    }

    /// A cursor that starts at the first candidate.
    pub fn new() -> (r: RoundRobin)
        ensures
            r.count() == 0,
    {
        RoundRobin { counter: 0 }
    }

    /// Whether the cursor has made as many selections as a `usize` counts.
    pub fn next_would_overflow(&self) -> (r: bool)
        ensures
            r == (self.count() == usize::MAX),
    {
        self.counter == usize::MAX
    }

    /// Pick the next position among `len` candidates and advance.
    pub fn next_index(&mut self, len: usize) -> (r: usize)
        requires
            len > 0,
            old(self).count() < usize::MAX,
        ensures
            r == old(self).count() % (len as nat),
            r < len,
            final(self).count() == old(self).count() + 1,
    {
        let idx = self.counter % len;
        self.counter = self.counter + 1;
        idx
    }
}

/// Any `len` successive round-robin selections, starting from any count,
/// visit every one of the `len` positions.
pub proof fn lemma_round_robin_visits_all(start: nat, len: nat, j: nat)
    requires
        len > 0,
        j < len,
    ensures
        exists|k: nat| k < len && #[trigger] (((start + k) as int) % (len as int)) == j,
{
    let st: int = start as int;
    let n: int = len as int;
    let jj: int = j as int;
    let r: int = st % n;
    let q: int = st / n;
    assert(0 <= r < n && st == q * n + r) by (nonlinear_arith)
        requires
            r == st % n,
            q == st / n,
            n > 0,
    ;
    let ki: int = (jj + n - r) % n;
    assert(0 <= ki < n) by (nonlinear_arith)
        requires
            ki == (jj + n - r) % n,
            n > 0,
    ;
    assert((st + ki) % n == jj) by (nonlinear_arith)
        requires
            ki == (jj + n - r) % n,
            st == q * n + r,
            0 <= r < n,
            0 <= jj < n,
            n > 0,
    ;
    let k: nat = ki as nat;
    assert(((start + k) as int) % (len as int) == j);
}

/// Multiplier of the router's linear congruential sequence.
pub const LCG_MULTIPLIER: u64 = 6364136223846793005;

/// One step of the router's linear congruential sequence, modulo 2^64.
pub open spec fn lcg_step(seed: u64) -> u64 {
    ((seed as int * LCG_MULTIPLIER as int + 1) % 0x1_0000_0000_0000_0000int) as u64
}

/// The sequence step is the full 64-bit linear congruential step: every bit of
/// the seed takes part in the multiplication, and the result is the product
/// plus one, reduced modulo 2^64.
pub proof fn lemma_lcg_step_is_full_width(seed: u64)
    ensures
        lcg_step(seed) as int == (seed as int * 6364136223846793005int + 1) % 18446744073709551616int,
        lcg_step(seed) as int + 18446744073709551616int * ((seed as int * 6364136223846793005int + 1) / 18446744073709551616int)
            == seed as int * 6364136223846793005int + 1,
{
    let p: int = seed as int * 6364136223846793005int + 1;
    let m: int = 18446744073709551616int;
    assert(0 <= p % m < m && p == m * (p / m) + p % m) by (nonlinear_arith)
        requires
            m > 0,
    ;
}

/// Advance the deterministic pseudo-random seed by one step.
pub fn lcg_next(seed: u64) -> (r: u64)
    ensures
        r == lcg_step(seed),
        r as int == (seed as int * 6364136223846793005int + 1) % 18446744073709551616int,
{
    let m = seed.wrapping_mul(LCG_MULTIPLIER);
    let r = m.wrapping_add(1);
    proof {
        let p: int = seed as int * LCG_MULTIPLIER as int;
        let big: int = 0x1_0000_0000_0000_0000;
        assert(m as int == p % big);
        assert((p % big + 1) % big == (p + 1) % big) by (nonlinear_arith)
            requires
                big > 0,
                p >= 0,
        ;
    }
    r
}

/// The top 31 bits of a seed, from which the router draws a fraction in [0, 1).
pub fn draw_bits(seed: u64) -> (r: u64)
    ensures
        r == seed / 0x2_0000_0000,
        r < 0x8000_0000,
{
    let r = seed >> 33u64;
    assert(seed >> 33u64 == seed / 0x2_0000_0000) by (bit_vector);
    assert(seed >> 33u64 < 0x8000_0000) by (bit_vector);
    r
}

/// Sum of the counts in a keyed list of counters.
pub open spec fn count_sum(s: Seq<(Seq<char>, u64)>) -> nat
    decreases s.len(),
{
    if s.len() == 0 {
        0
    } else {
        count_sum(s.drop_last()) + s.last().1 as nat
    }
}

/// The count stored under `k`, 0 when there is none.
pub open spec fn count_of(s: Seq<(Seq<char>, u64)>, k: Seq<char>) -> nat {
    match lookup(s, k) {
        Some(c) => c as nat,
        None => 0,
    }
}

/// Appending a counter adds its count to the sum.
pub proof fn lemma_count_sum_push(s: Seq<(Seq<char>, u64)>, e: (Seq<char>, u64))
    ensures
        count_sum(s.push(e)) == count_sum(s) + e.1,
{
    assert(s.push(e).drop_last() =~= s);
}

/// Replacing one counter changes the sum by the difference of the counts.
pub proof fn lemma_count_sum_update(s: Seq<(Seq<char>, u64)>, i: int, e: (Seq<char>, u64))
    requires
        0 <= i < s.len(),
    ensures
        count_sum(s.update(i, e)) + s[i].1 == count_sum(s) + e.1,
    decreases s.len(),
{
    let t = s.update(i, e);
    if i == s.len() - 1 {
        assert(t.drop_last() =~= s.drop_last());
    } else {
        lemma_count_sum_update(s.drop_last(), i, e);
        assert(t.drop_last() =~= s.drop_last().update(i, e));
    }
}

/// No single count exceeds the sum.
pub proof fn lemma_count_le_sum(s: Seq<(Seq<char>, u64)>, i: int)
    requires
        0 <= i < s.len(),
    ensures
        s[i].1 <= count_sum(s),
    decreases s.len(),
{
    if i < s.len() - 1 {
        lemma_count_le_sum(s.drop_last(), i);
    }
}

/// Bumping the counter of `k` by one raises the sum by one.
pub proof fn lemma_bump_counter(s: Seq<(Seq<char>, u64)>, k: Seq<char>)
    requires
        count_of(s, k) < u64::MAX,
    ensures
        count_sum(store_insert(s, k, (count_of(s, k) + 1) as u64)) == count_sum(s) + 1,
        keys_unique(s) ==> keys_unique(store_insert(s, k, (count_of(s, k) + 1) as u64)),
{
    let c = (count_of(s, k) + 1) as u64;
    if has_key(s, k) {
        lemma_key_index_exists(s, k);
        lemma_count_sum_update(s, key_index(s, k), (k, c));
    } else {
        lemma_count_sum_push(s, (k, c));
    }
    if keys_unique(s) {
        crate::store::lemma_store_keeps_keys_unique(s, k, c);
    }
}

/// Counts of routed and failed tasks, per agent and per strategy.
#[derive(Clone, Debug)]
pub struct RouteCounters {
    total_routed: u64,
    failed_routes: u64,
    routes_per_agent: KeyedStore<u64>,
    strategy_usage: KeyedStore<u64>,
}

impl RouteCounters {
    /// Tasks routed.
    pub closed spec fn total(&self) -> nat {
        self.total_routed as nat
    }

    /// Routing attempts that found no agent.
    pub closed spec fn failed(&self) -> nat {
        self.failed_routes as nat
    }

    /// Tasks routed to each agent.
    pub closed spec fn per_agent(&self) -> Seq<(Seq<char>, u64)> {
        self.routes_per_agent@
    }

    /// Tasks routed under each strategy label.
    pub closed spec fn per_strategy(&self) -> Seq<(Seq<char>, u64)> {
        self.strategy_usage@
    }

    /// Every routed task is counted once for its agent and once for its
    /// strategy, and each agent and strategy has one counter.
    pub open spec fn wf(&self) -> bool {
        &&& count_sum(self.per_agent()) == self.total()
        &&& count_sum(self.per_strategy()) == self.total()
        &&& keys_unique(self.per_agent())
        &&& keys_unique(self.per_strategy())
    }

    /// No task routed or failed yet.
    pub fn new() -> (r: RouteCounters)
        ensures
            r.total() == 0,
            r.failed() == 0,
            r.per_agent().len() == 0,
            r.per_strategy().len() == 0,
            r.wf(),
    {
        RouteCounters {
            total_routed: 0,
            failed_routes: 0,
            routes_per_agent: KeyedStore::new(),
            strategy_usage: KeyedStore::new(),
        }
    }

    /// Count one task routed to `agent_id` under `strategy`.
    pub fn record_route(&mut self, agent_id: &str, strategy: RoutingStrategy)
        requires
            old(self).wf(),
            old(self).total() < u64::MAX,
        ensures
            final(self).wf(),
            final(self).total() == old(self).total() + 1,
            final(self).failed() == old(self).failed(),
            final(self).per_agent() == store_insert(
                old(self).per_agent(),
                agent_id@,
                (count_of(old(self).per_agent(), agent_id@) + 1) as u64,
            ),
            final(self).per_strategy() == store_insert(
                old(self).per_strategy(),
                strategy_label(strategy),
                (count_of(old(self).per_strategy(), strategy_label(strategy)) + 1) as u64,
            ),
    {
        let agent_count: u64 = match self.routes_per_agent.get(agent_id) {
            Some(c) => *c,
            None => 0,
        };
        let label = strategy.as_str();
        let strategy_count: u64 = match self.strategy_usage.get(label) {
            Some(c) => *c,
            None => 0,
        };
        proof {
            let pa = self.per_agent();
            let ps = self.per_strategy();
            if has_key(pa, agent_id@) {
                lemma_key_index_exists(pa, agent_id@);
                lemma_count_le_sum(pa, key_index(pa, agent_id@));
            }
            if has_key(ps, label@) {
                lemma_key_index_exists(ps, label@);
                lemma_count_le_sum(ps, key_index(ps, label@));
            }
            lemma_bump_counter(pa, agent_id@);
            lemma_bump_counter(ps, label@);
        }
        self.routes_per_agent.insert(agent_id.to_owned(), agent_count + 1);
        self.strategy_usage.insert(label.to_owned(), strategy_count + 1);
        self.total_routed = self.total_routed + 1;
    }

    /// Count one routing attempt that found no agent.
    pub fn record_failure(&mut self)
        requires
            old(self).failed() < u64::MAX,
        ensures
            final(self).failed() == old(self).failed() + 1,
            final(self).total() == old(self).total(),
            final(self).per_agent() == old(self).per_agent(),
            final(self).per_strategy() == old(self).per_strategy(),
            old(self).wf() ==> final(self).wf(),
    {
        self.failed_routes = self.failed_routes + 1;
    }

    /// Total tasks routed
    pub fn total_routed(&self) -> (r: u64)
        ensures
            r == self.total(),
    {
        self.total_routed
    }

    /// Number of failed routing attempts (no agent available)
    pub fn failed_routes(&self) -> (r: u64)
        ensures
            r == self.failed(),
    {
        self.failed_routes
    }

    /// Tasks routed to `agent_id`
    pub fn routes_for(&self, agent_id: &str) -> (r: u64)
        ensures
            r == count_of(self.per_agent(), agent_id@),
    {
        match self.routes_per_agent.get(agent_id) {
            Some(c) => *c,
            None => 0,
        }
    }

    /// Tasks routed under `strategy`
    pub fn strategy_count(&self, strategy: RoutingStrategy) -> (r: u64)
        ensures
            r == count_of(self.per_strategy(), strategy_label(strategy)),
    {
        match self.strategy_usage.get(strategy.as_str()) {
            Some(c) => *c,
            None => 0,
        }
    }

    /// Tasks routed per agent
    pub fn routes_per_agent(&self) -> (r: &KeyedStore<u64>)
        ensures
            r@ == self.per_agent(),
    {
        &self.routes_per_agent
    }

    /// Strategy usage counts, keyed by strategy label
    pub fn strategy_usage(&self) -> (r: &KeyedStore<u64>)
        ensures
            r@ == self.per_strategy(),
    {
        &self.strategy_usage
    }
}

/// Recording a route raises the routed agent's count by one and leaves every
/// other agent's count as it was.
pub proof fn lemma_record_route_counts(s: Seq<(Seq<char>, u64)>, agent: Seq<char>, other: Seq<char>)
    requires
        count_of(s, agent) < u64::MAX,
    ensures
        count_of(store_insert(s, agent, (count_of(s, agent) + 1) as u64), agent) == count_of(s, agent) + 1,
        other != agent ==> count_of(store_insert(s, agent, (count_of(s, agent) + 1) as u64), other)
            == count_of(s, other),
{
    crate::store::lemma_insert_then_lookup(s, agent, (count_of(s, agent) + 1) as u64, other);
}

/// Slots an agent still has in a batch: the count stored for it, 0 if none.
pub open spec fn slots_of(s: Seq<(Seq<char>, u32)>, k: Seq<char>) -> nat {
    match lookup(s, k) {
        Some(c) => c as nat,
        None => 0,
    }
}

/// Remaining task slots per agent while a batch of tasks is routed.
#[derive(Clone, Debug)]
pub struct SlotLedger {
    slots: KeyedStore<u32>,
}

impl SlotLedger {
    /// Slots per agent identifier.
    pub closed spec fn slots_view(&self) -> Seq<(Seq<char>, u32)> {
        self.slots@
    }

    /// A ledger with no agents.
    pub fn new() -> (r: SlotLedger)
        ensures
            r.slots_view().len() == 0,
    {
        SlotLedger { slots: KeyedStore::new() }
    }

    /// Set the slots of `agent_id` (a later setting for the same agent wins).
    pub fn set_slots(&mut self, agent_id: String, slots: u32)
        ensures
            final(self).slots_view() == store_insert(old(self).slots_view(), agent_id@, slots),
    {
        self.slots.insert(agent_id, slots);
    }

    /// Slots left for `agent_id` (0 for an agent not in the ledger).
    pub fn remaining(&self, agent_id: &str) -> (r: u32)
        ensures
            r == slots_of(self.slots_view(), agent_id@),
            lookup(self.slots_view(), agent_id@) matches Some(c) ==> r == c,
            lookup(self.slots_view(), agent_id@) is None ==> r == 0,
    {
        match self.slots.get(agent_id) {
            Some(c) => *c,
            None => 0,
        }
    }

    /// Whether `agent_id` has a slot left.
    pub fn has_capacity(&self, agent_id: &str) -> (r: bool)
        ensures
            r == (slots_of(self.slots_view(), agent_id@) > 0),
    {
        self.remaining(agent_id) > 0
    }

    /// Use one slot of `agent_id`, if it is in the ledger (never below 0).
    pub fn consume(&mut self, agent_id: &str)
        ensures
            has_key(old(self).slots_view(), agent_id@) ==> final(self).slots_view() == old(self).slots_view().update(
                key_index(old(self).slots_view(), agent_id@),
                (agent_id@, (if slots_of(old(self).slots_view(), agent_id@) > 0 {
                    slots_of(old(self).slots_view(), agent_id@) - 1
                } else {
                    0
                }) as u32),
            ),
            !has_key(old(self).slots_view(), agent_id@) ==> final(self).slots_view() == old(self).slots_view(),
            lookup(old(self).slots_view(), agent_id@) matches Some(c) ==> lookup(final(self).slots_view(), agent_id@)
                == Some(if c > 0 { (c - 1) as u32 } else { 0u32 }),
            forall|other: Seq<char>| other != agent_id@ ==> #[trigger] lookup(final(self).slots_view(), other)
                == lookup(old(self).slots_view(), other),
    {
        match self.slots.index_of(agent_id) {
            Some(i) => {
                proof {
                    lemma_key_index_exists(self.slots@, agent_id@);
                }
                let ghost before = self.slots@;
                let slot = self.slots.value_at_mut(i);
                *slot = slot.saturating_sub(1);
                proof {
                    let c = lookup(before, agent_id@).unwrap();
                    let v: u32 = if c > 0 { (c - 1) as u32 } else { 0u32 };
                    assert(self.slots@ == before.update(key_index(before, agent_id@), (agent_id@, v)));
                    assert(self.slots@ == store_insert(before, agent_id@, v));
                    assert forall|other: Seq<char>| other != agent_id@ implies #[trigger] lookup(self.slots@, other)
                        == lookup(before, other) by {
                        crate::store::lemma_insert_then_lookup(before, agent_id@, v, other);
                    }
                    crate::store::lemma_insert_then_lookup(before, agent_id@, v, agent_id@);
                }
            },
            None => {},
        }
    }
}

/// Using a slot lowers the agent's remaining slots by one while it has any,
/// leaves them at 0 otherwise, and leaves every other agent's slots as they
/// were.
pub proof fn lemma_consume_slot(s: Seq<(Seq<char>, u32)>, agent: Seq<char>, other: Seq<char>)
    requires
        has_key(s, agent),
    ensures
        ({
            let t = s.update(
                key_index(s, agent),
                (agent, (if slots_of(s, agent) > 0 { slots_of(s, agent) - 1 } else { 0 }) as u32),
            );
            &&& slots_of(t, agent) == if slots_of(s, agent) > 0 { slots_of(s, agent) - 1 } else { 0 }
            &&& other != agent ==> slots_of(t, other) == slots_of(s, other)
        }),
{
    let v = (if slots_of(s, agent) > 0 { slots_of(s, agent) - 1 } else { 0 }) as u32;
    lemma_key_index_exists(s, agent);
    assert(s.update(key_index(s, agent), (agent, v)) == store_insert(s, agent, v));
    crate::store::lemma_insert_then_lookup(s, agent, v, other);
}


/// The ledger reads back exactly the slots that were set for an agent, and
/// setting one agent's slots leaves every other agent's as they were.
pub proof fn lemma_ledger_reads_back(s: Seq<(Seq<char>, u32)>, agent: Seq<char>, n: u32, other: Seq<char>)
    ensures
        slots_of(store_insert(s, agent, n), agent) == n,
        lookup(store_insert(s, agent, n), agent) == Some(n),
        other != agent ==> slots_of(store_insert(s, agent, n), other) == slots_of(s, other),
{
    crate::store::lemma_insert_then_lookup(s, agent, n, agent);
    crate::store::lemma_insert_then_lookup(s, agent, n, other);
}

/// Using a slot of an agent that has `c > 0` slots stored leaves exactly
/// `c - 1`: the remaining count drops by one, not to zero or to a cap.
pub proof fn lemma_consume_lowers_by_one(s: Seq<(Seq<char>, u32)>, agent: Seq<char>, c: u32)
    requires
        lookup(s, agent) == Some(c),
        c > 0,
    ensures
        slots_of(s, agent) == c,
        slots_of(store_insert(s, agent, (c - 1) as u32), agent) == c - 1,
        slots_of(store_insert(s, agent, (c - 1) as u32), agent) + 1 == slots_of(s, agent),
{
    crate::store::lemma_insert_then_lookup(s, agent, (c - 1) as u32, agent);
}

} // verus!
