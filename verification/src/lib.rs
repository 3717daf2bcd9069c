//! A verified core for a tool-calling chat client: the delta-stream
//! accumulator that reassembles tool invocations from incremental response
//! chunks, the name-keyed tool registry with schema validation, and the
//! round-bounded conversation orchestrator.

pub mod json;
pub mod offline_tools;
pub mod orchestrator;
pub mod schema;
pub mod stream;
pub mod tool;
pub mod tool_object;
pub mod toolset;
