//! A validated, schema-bearing registry entry for one tool.

use vstd::prelude::*;
use crate::schema::{SchemaNode, ValidationError, valid_schema, validate_tool_schema};
use crate::tool::Tool;

verus! {

/// One registered tool: its name, taken from the schema title, its
/// description, its schema, and the stored instance that selects decoding
/// and execution. Entries are created once, at registration, and are
/// immutable thereafter.
pub struct ToolObject<T> {
    pub name: String,
    pub description: String,
    pub schema: SchemaNode,
    pub tool: T,
}

impl<T> ToolObject<T> {
    /// The stored instance whose variant selects decoding and execution.
    pub open spec fn spec_tool(&self) -> T {
        self.tool
    }

    /// A registered entry's name and description are the ones its schema
    /// carries, and the schema passed validation.
    pub open spec fn wf(&self) -> bool {
        &&& valid_schema(self.schema@)
        &&& self.schema@.title == Option::Some(self.name@)
        &&& self.schema@.description == Option::Some(self.description@)
    }

    /// Builds the entry for one tool, validating that the schema carries a
    /// title and, recursively, non-empty descriptions. The registry's
    /// build-time validation lives here: a process must not start with an
    /// undocumented tool.
    pub fn try_from_tool(tool: T, schema: SchemaNode) -> (r: Result<Self, ValidationError>)
        ensures
            match r {
                Ok(o) => {
                    &&& valid_schema(schema@)
                    &&& o.wf()
                    &&& o.schema == schema
                    &&& o.spec_tool() == tool
                },
                Err(e) => !valid_schema(schema@) && e is MissingMetadata,
            },
    {
        match validate_tool_schema(&schema) {
            Ok((name, description)) => Ok(ToolObject { name, description, schema, tool }),
            Err(e) => Err(e),
        }
    }
}

impl<T: Tool> ToolObject<T> {
    /// Decodes argument text with this entry's own decoder. What the
    /// decoder accepts is the registered tool's own affair.
    pub fn try_deserialize(&self, data: &str) -> Result<T, serde_json::Error> {
        self.tool.try_deserialize(data)
    }
}

} // verus!
