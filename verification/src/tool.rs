//! The uniform capability interface behind which every tool stands: a typed
//! instance that can be decoded from argument text and executed against a
//! caller-supplied context.

use vstd::prelude::*;

verus! {

/// The context threaded into tool executions that need none.
#[derive(Clone, Copy)]
pub struct NoContext();

/// The uniform capability interface behind which every tool stands, for
/// the embedding program to implement: decoding of argument text into a
/// typed instance, and the operation from that instance and a
/// caller-supplied context to the tool's result text. Both halves are the
/// implementor's own: the registry dispatches through them without
/// constraining what they return. The decoder is selected by the receiver
/// — for a suite of tools, by its variant — so a registry entry's stored
/// instance decides how argument text is read.
pub trait Tool: Sized {
    type Context;

    /// Decodes argument text into a typed instance, or reports why the
    /// text does not fit the tool's expected shape.
    fn try_deserialize(&self, json: &str) -> Result<Self, serde_json::Error>;

    /// Runs the tool and reports its result as text. A failure the tool
    /// itself wants to report is part of that text, not an error.
    fn apply(&self, context: Self::Context) -> String;
}

} // verus!
