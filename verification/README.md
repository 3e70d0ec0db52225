# clock

Lamport clocks and vector clocks, verified with Verus.

- `src/lamport_clock.rs`: the scalar clock (rules R1 and R2), messages,
  logged events, and a process's decisions in the simulation.
- `src/vector_clock.rs`: the vector clock, its messages and events, and a
  process's decisions; `src/causality.rs`: equality and the causal
  (component-wise) partial order of vector clocks, with its laws.
- `src/order.rs`: the total order `(scalar time, process id)` of the event
  log and a verified stable sort into it.
- `src/system.rs`: a model of a whole run of processes with vector clocks,
  and the invariant that no one knows more events of a process than it has
  had.
- `src/random.rs`: the one call into `rand`.
- `app/`: the simulation itself (threads, channels, timers, printing),
  run as `clock lamport-clock` or `clock vector-clock`.
