//! Function call logging: a per-thread call graph that logs calls, returns and loop bodies,
//! counts repeated calls and iterations instead of logging them again, and drops loop bodies
//! without nested calls; log decorators that turn it into code-like or tree-like text.

pub mod repeat_count;
pub mod call_tree;
pub mod call_graph;
pub mod graph_laws;
pub mod flush_law;
pub mod notifiable;
pub mod decorators;
pub mod call_logger;
pub mod threads;
pub mod writer;
