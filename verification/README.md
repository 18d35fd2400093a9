# fleet_attention

Routing of tasks to the agents of a fleet, attention-style: tasks and agents
are embedded as vectors, scored against each other, and a router picks an
agent by one of several strategies.

- `src/` is the verified library (Verus): skill tags and their labels,
  task priorities and urgency, the embedding layout, bounded event and
  history logs, a keyed store and the agent roster built on it, tallies over
  task outcomes, round-robin selection, the router's pseudo-random sequence
  and the route counters.
- `app/` is the floating-point layer (scores, weights, softmax, loads and
  proficiencies) and the serializable forms of the library's types; it calls
  the library for everything that does not compute with floats.
- `tests/` exercises the library.
