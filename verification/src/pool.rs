//! The agent roster: agents keyed by identifier, with a bounded event log.

use vstd::prelude::*;
use crate::log::{bounded_push, push_bounded, lemma_bounded_push_keeps_newest};
use crate::store::{
    KeyedStore, has_key, keys_unique, lookup, store_insert, store_remove,
    lemma_store_keeps_keys_unique,
};

verus! {

/// Event types emitted by the agent pool
#[derive(Clone, Debug, PartialEq, Eq)]
pub enum PoolEvent {
    /// A new agent was registered
    AgentRegistered(String),
    /// An agent was removed from the pool
    AgentRemoved(String),
    /// An agent's profile was updated
    AgentUpdated(String),
    /// An agent went online
    AgentOnline(String),
    /// An agent went offline
    AgentOffline(String),
}

/// What a pool event says, with the agent identifier as characters.
pub enum PoolEventView {
    AgentRegistered(Seq<char>),
    AgentRemoved(Seq<char>),
    AgentUpdated(Seq<char>),
    AgentOnline(Seq<char>),
    AgentOffline(Seq<char>),
}

impl View for PoolEvent {
    type V = PoolEventView;

    open spec fn view(&self) -> PoolEventView {
        match self {
            PoolEvent::AgentRegistered(id) => PoolEventView::AgentRegistered(id@),
            PoolEvent::AgentRemoved(id) => PoolEventView::AgentRemoved(id@),
            PoolEvent::AgentUpdated(id) => PoolEventView::AgentUpdated(id@),
            PoolEvent::AgentOnline(id) => PoolEventView::AgentOnline(id@),
            PoolEvent::AgentOffline(id) => PoolEventView::AgentOffline(id@),
        }
    }
}

/// Changing the value at a position keeps the keys, hence their uniqueness.
pub proof fn lemma_update_value_keeps_keys<P>(s: Seq<(Seq<char>, P)>, i: int, v: P)
    requires
        0 <= i < s.len(),
    ensures
        keys_unique(s) ==> keys_unique(s.update(i, (s[i].0, v))),
{
    let t = s.update(i, (s[i].0, v));
    assert forall|a: int| 0 <= a < t.len() implies #[trigger] t[a].0 == s[a].0 by {}
}

/// A newly registered agent is found under its identifier with the given
/// profile, every other identifier reads as before, the roster grows by one,
/// and (when the log keeps any events) the newest event records the
/// registration.
pub proof fn lemma_register_then_get<P>(
    agents: Seq<(Seq<char>, P)>,
    events: Seq<PoolEventView>,
    max_events: nat,
    id: Seq<char>,
    profile: P,
    other: Seq<char>,
)
    requires
        !has_key(agents, id),
        events.len() <= max_events,
    ensures
        lookup(agents.push((id, profile)), id) == Some(profile),
        other != id ==> lookup(agents.push((id, profile)), other) == lookup(agents, other),
        agents.push((id, profile)).len() == agents.len() + 1,
        max_events > 0 ==> bounded_push(events, PoolEventView::AgentRegistered(id), max_events).last()
            == PoolEventView::AgentRegistered(id),
        bounded_push(events, PoolEventView::AgentRegistered(id), max_events).len() <= max_events,
{
    crate::store::lemma_insert_then_lookup(agents, id, profile, other);
    assert(store_insert(agents, id, profile) == agents.push((id, profile)));
    lemma_bounded_push_keeps_newest(events, PoolEventView::AgentRegistered(id), max_events);
}

/// After removing an agent from a roster with unique identifiers, it is no
/// longer found, every other identifier reads as before, and the roster
/// shrinks by one exactly when the agent was registered.
pub proof fn lemma_remove_then_get<P>(agents: Seq<(Seq<char>, P)>, id: Seq<char>, other: Seq<char>)
    requires
        keys_unique(agents),
    ensures
        lookup(store_remove(agents, id), id) is None,
        other != id ==> lookup(store_remove(agents, id), other) == lookup(agents, other),
        store_remove(agents, id).len() == if has_key(agents, id) { agents.len() - 1 } else { agents.len() as int },
{
    crate::store::lemma_remove_then_lookup(agents, id, other);
}

/// Agents keyed by identifier, in registration order, with a log of the most
/// recent pool events.
#[derive(Clone, Debug)]
pub struct AgentRoster<P> {
    agents: KeyedStore<P>,
    events: Vec<PoolEvent>,
    max_events: usize,
}

impl<P> AgentRoster<P> {
    /// The registered agents, as (identifier, profile) pairs.
    pub closed spec fn agents_view(&self) -> Seq<(Seq<char>, P)> {
        self.agents@
    }

    /// The event log, oldest first.
    pub closed spec fn events_view(&self) -> Seq<PoolEventView> {
        self.events@.map_values(|e: PoolEvent| e@)
    }

    /// The most events the log keeps.
    pub closed spec fn max_events(&self) -> nat {
        self.max_events as nat
    }

    /// Identifiers are unique and the log is within its bound.
    pub open spec fn wf(&self) -> bool {
        &&& keys_unique(self.agents_view())
        &&& self.events_view().len() <= self.max_events()
    }

    /// Create an empty roster that keeps the last 1000 events
    pub fn new() -> (r: AgentRoster<P>)
        ensures
            r.agents_view().len() == 0,
            r.events_view().len() == 0,
            r.max_events() == 1000,
            r.wf(),
    {
        Self::with_max_events(1000)
    }

    /// Create an empty roster that keeps the last `max_events` events
    pub fn with_max_events(max_events: usize) -> (r: AgentRoster<P>)
        ensures
            r.agents_view().len() == 0,
            r.events_view().len() == 0,
            r.max_events() == max_events,
            r.wf(),
    {
        let r = AgentRoster { agents: KeyedStore::new(), events: Vec::new(), max_events };
        assert(r.events_view() =~= Seq::<PoolEventView>::empty());
        r
    }

    /// Append an event to the log, dropping the oldest beyond the bound.
    pub fn emit(&mut self, event: PoolEvent)
        ensures
            final(self).agents_view() == old(self).agents_view(),
            final(self).max_events() == old(self).max_events(),
            final(self).events_view() == bounded_push(old(self).events_view(), event@, old(self).max_events()),
            old(self).wf() ==> final(self).wf(),
    {
        let ghost before = self.events@;
        push_bounded(&mut self.events, event, self.max_events);
        proof {
            let f = |e: PoolEvent| e@;
            let grown = before.push(event);
            assert(grown.map_values(f) =~= before.map_values(f).push(event@));
            if grown.len() > self.max_events {
                assert(grown.skip(grown.len() - self.max_events).map_values(f)
                    =~= grown.map_values(f).skip(grown.len() - self.max_events));
            }
            if old(self).wf() {
                lemma_bounded_push_keeps_newest(before.map_values(f), event@, self.max_events as nat);
            }
        }
    }

    /// Register a new agent under `id`; refused (returning false, with no
    /// change) when `id` is already registered
    pub fn register(&mut self, id: String, profile: P) -> (r: bool)
        ensures
            r == !has_key(old(self).agents_view(), id@),
            final(self).max_events() == old(self).max_events(),
            r ==> final(self).agents_view() == old(self).agents_view().push((id@, profile)),
            r ==> final(self).events_view() == bounded_push(
                old(self).events_view(),
                PoolEventView::AgentRegistered(id@),
                old(self).max_events(),
            ),
            !r ==> final(self).agents_view() == old(self).agents_view(),
            !r ==> final(self).events_view() == old(self).events_view(),
            old(self).wf() ==> final(self).wf(),
    {
        if self.agents.contains_key(id.as_str()) {
            return false;
        }
        self.emit(PoolEvent::AgentRegistered(id.clone()));
        let ghost k = id@;
        self.agents.insert(id, profile);
        proof {
            if old(self).wf() {
                lemma_store_keeps_keys_unique(old(self).agents_view(), k, profile);
            }
        }
        true
    }

    /// Remove an agent from the roster
    pub fn remove(&mut self, agent_id: &str) -> (r: bool)
        ensures
            r == has_key(old(self).agents_view(), agent_id@),
            final(self).agents_view() == store_remove(old(self).agents_view(), agent_id@),
            final(self).max_events() == old(self).max_events(),
            r ==> final(self).events_view() == bounded_push(
                old(self).events_view(),
                PoolEventView::AgentRemoved(agent_id@),
                old(self).max_events(),
            ),
            !r ==> final(self).events_view() == old(self).events_view(),
            old(self).wf() ==> final(self).wf(),
    {
        let removed = self.agents.remove(agent_id);
        proof {
            if old(self).wf() {
                lemma_store_keeps_keys_unique(old(self).agents_view(), agent_id@, arbitrary());
            }
        }
        if removed.is_some() {
            self.emit(PoolEvent::AgentRemoved(agent_id.to_owned()));
            true
        } else {
            false
        }
    }

    /// Log `event` for the agent registered under `agent_id` and return its
    /// position, so that its profile can be updated; `None`, with no change,
    /// when no such agent is registered.
    pub fn log_update(&mut self, agent_id: &str, event: PoolEvent) -> (r: Option<usize>)
        ensures
            r is None <==> !has_key(old(self).agents_view(), agent_id@),
            r matches Some(i) ==> i < old(self).agents_view().len()
                && old(self).agents_view()[i as int].0 == agent_id@,
            final(self).agents_view() == old(self).agents_view(),
            final(self).max_events() == old(self).max_events(),
            r is Some ==> final(self).events_view() == bounded_push(
                old(self).events_view(),
                event@,
                old(self).max_events(),
            ),
            r is None ==> final(self).events_view() == old(self).events_view(),
            old(self).wf() ==> final(self).wf(),
    {
        let found = self.index_of(agent_id);
        if found.is_some() {
            self.emit(event);
        }
        found
    }

    /// Whether an agent is registered under `agent_id`
    pub fn contains(&self, agent_id: &str) -> (r: bool)
        ensures
            r == has_key(self.agents_view(), agent_id@),
    {
        self.agents.contains_key(agent_id)
    }

    /// Get a reference to an agent's profile
    pub fn get(&self, agent_id: &str) -> (r: Option<&P>)
        ensures
            r is Some <==> has_key(self.agents_view(), agent_id@),
            r matches Some(v) ==> lookup(self.agents_view(), agent_id@) == Some(*v),
    {
        self.agents.get(agent_id)
    }

    /// Position of the agent registered under `agent_id`
    pub fn index_of(&self, agent_id: &str) -> (r: Option<usize>)
        ensures
            r is None <==> !has_key(self.agents_view(), agent_id@),
            r matches Some(i) ==> i < self.agents_view().len()
                && self.agents_view()[i as int].0 == agent_id@
                && lookup(self.agents_view(), agent_id@) == Some(self.agents_view()[i as int].1),
    {
        let r = self.agents.index_of(agent_id);
        proof {
            if r is Some {
                crate::store::lemma_key_index_exists(self.agents_view(), agent_id@);
            }
        }
        r
    }

    /// The profile at position `i`
    pub fn profile_at(&self, i: usize) -> (r: &P)
        requires
            i < self.agents_view().len(),
        ensures
            *r == self.agents_view()[i as int].1,
    {
        self.agents.value_at(i)
    }

    /// The identifier at position `i`
    pub fn id_at(&self, i: usize) -> (r: &str)
        requires
            i < self.agents_view().len(),
        ensures
            r@ == self.agents_view()[i as int].0,
    {
        self.agents.key_at(i)
    }

    /// The profile at position `i`, for changing in place
    pub fn profile_at_mut(&mut self, i: usize) -> (r: &mut P)
        requires
            i < old(self).agents_view().len(),
        ensures
            *r == old(self).agents_view()[i as int].1,
            final(self).agents_view() == old(self).agents_view().update(
                i as int,
                (old(self).agents_view()[i as int].0, *final(r)),
            ),
            final(self).events_view() == old(self).events_view(),
            final(self).max_events() == old(self).max_events(),
            old(self).wf() ==> final(self).wf(),
    {
        let ghost before = self.agents_view();
        let r = self.agents.value_at_mut(i);
        proof {
            lemma_update_value_keeps_keys(before, i as int, *final(r));
        }
        r
    }

    /// Number of registered agents
    pub fn len(&self) -> (r: usize)
        ensures
            r == self.agents_view().len(),
    {
        self.agents.len()
    }

    /// Whether the roster is empty
    pub fn is_empty(&self) -> (r: bool)
        ensures
            r == (self.agents_view().len() == 0),
    {
        self.agents.is_empty()
    }

    /// Get the event log
    pub fn events(&self) -> (r: &[PoolEvent])
        ensures
            r@.map_values(|e: PoolEvent| e@) == self.events_view(),
    {
        self.events.as_slice()
    }

    /// Clear the event log
    pub fn clear_events(&mut self)
        ensures
            final(self).events_view().len() == 0,
            final(self).agents_view() == old(self).agents_view(),
            final(self).max_events() == old(self).max_events(),
            old(self).wf() ==> final(self).wf(),
    {
        self.events.clear();
        assert(self.events_view() =~= Seq::<PoolEventView>::empty());
    }
}

} // verus!
