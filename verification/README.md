# fcl — function call logging, verified

A library that logs the calls of a running program (functions, closures, loop bodies) as
a readable call tree, and keeps the log short: a call that repeats its previous sibling is
not logged again but counted (`// f() repeats 3 time(s).`), loop bodies without nested
calls are dropped, and iterations equal to the previous one are counted too.

The library is written in Verus and its behaviour is proved against its contracts.

## Layout

- `src/repeat_count.rs` — repeat counts (overall and flushed parts, saturation) and their
  text in the log.
- `src/call_tree.rs` — the call tree nodes, subtree comparison, the notifications that a
  change of the tree produces, and logging a whole subtree.
- `src/call_graph.rs` — a thread's call graph: the call stack, the caching of possible
  repetitions and of initial loop bodies, and what each event logs.
- `src/graph_laws.rs` — properties of the call graph over sequences of events.
- `src/flush_law.rs` — call trees alike up to what has been logged, the operations on a
  graph as steps of a run, and the proof that runs of the same operations keep their trees
  alike (so that a flush changes only the log).
- `src/notifiable.rs`, `src/decorators.rs` — the receivers of the notifications: the
  code-like and the tree-like log formats, with thread indents.
- `src/call_logger.rs` — the per-thread logger (on/off stack, call graph, decorator) and the
  guards of instrumented functions and loop bodies.
- `src/threads.rs` — thread indents and the decision of what to flush when another thread,
  or the program's own output, comes between log updates.
- `src/writer.rs` — the kinds of writer the log can go to.
- `app/` — the runtime around the library: the shared writer, the redirection of `stdout`
  and `stderr`, the arbiter of the threads' loggers, the panic hook, and the thread-local
  guards used by instrumented code.
- `tests/` — scenarios of the call graph and of the log text, and unit tests.
