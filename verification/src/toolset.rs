//! The name-keyed tool registry: build-time validated registration and
//! runtime dispatch of tool calls.

use vstd::prelude::*;
use crate::schema::{SchemaNode, SchemaView, ValidationError, valid_schema, title_of};
use crate::tool::Tool;
use crate::tool_object::ToolObject;

verus! {

/// Why a tool could not be registered.
#[derive(Debug)]
pub enum ToolSetCreationError {
    /// The tool's schema failed validation.
    Validation(ValidationError),
    /// A tool of the same name is already registered; the registry is left
    /// unchanged.
    NameConflict(String),
}

/// Why a tool call could not be dispatched. A failure the tool itself
/// reports is not a dispatch error: only lookup and argument decoding fail
/// at this level.
#[derive(Debug)]
pub enum ToolCallError {
    /// The argument text does not fit the tool's expected shape — possibly
    /// a hallucination of the model.
    Deserialization(serde_json::Error),
    /// No tool of this name is registered.
    NotFound(String),
}

/// The names of the entries, in registration order.
pub open spec fn seq_names<T>(ts: Seq<ToolObject<T>>) -> Seq<Seq<char>> {
    ts.map_values(|o: ToolObject<T>| o.name@)
}

/// No two entries share a name.
pub open spec fn names_unique<T>(ts: Seq<ToolObject<T>>) -> bool {
    forall|i: int, j: int|
        0 <= i < j < ts.len() ==> (#[trigger] ts[i]).name@ != (#[trigger] ts[j]).name@
}

/// The stored instance of the entry with the given name; meaningful only
/// when exactly one entry holds the name.
pub open spec fn tool_for<T>(ts: Seq<ToolObject<T>>, name: Seq<char>) -> T {
    ts[choose|i: int| 0 <= i < ts.len() && ts[i].name@ == name].spec_tool()
}

/// With unique names, the entry found at any matching position is the one
/// `tool_for` denotes.
proof fn lemma_tool_for_at<T>(ts: Seq<ToolObject<T>>, name: Seq<char>, i: int)
    requires
        names_unique(ts),
        0 <= i < ts.len(),
        ts[i].name@ == name,
    ensures
        tool_for(ts, name) == ts[i].spec_tool(),
{
    let j = choose|j: int| 0 <= j < ts.len() && ts[j].name@ == name;
    assert(0 <= j < ts.len() && ts[j].name@ == name);
    if i < j {
        assert(ts[i].name@ != ts[j].name@);
    } else if j < i {
        assert(ts[j].name@ != ts[i].name@);
    }
}

/// The name-keyed collection of registered tools. Built once, before a
/// conversation starts, and read-only afterwards.
pub struct ToolSet<T> {
    tools: Vec<ToolObject<T>>,
}

impl<T> ToolSet<T> {
    #[verifier::type_invariant]
    spec fn wf(self) -> bool {
        &&& names_unique(self.tools@)
        &&& forall|i: int| 0 <= i < self.tools@.len() ==> (#[trigger] self.tools@[i]).wf()
    }

    /// The names of the registered tools, in registration order.
    pub closed spec fn spec_names(&self) -> Seq<Seq<char>> {
        seq_names(self.tools@)
    }

    /// Whether a tool of this name is registered.
    pub open spec fn spec_has(&self, name: Seq<char>) -> bool {
        self.spec_names().contains(name)
    }

    /// The schemas of the registered tools, in registration order.
    pub closed spec fn spec_schemas(&self) -> Seq<SchemaView> {
        self.tools@.map_values(|o: ToolObject<T>| o.schema@)
    }

    /// The stored instance registered under the given name.
    pub closed spec fn spec_tool_for(&self, name: Seq<char>) -> T {
        tool_for(self.tools@, name)
    }

    /// An empty registry.
    pub fn new() -> (s: Self)
        ensures
            s.spec_names() == Seq::<Seq<char>>::empty(),
            s.spec_schemas() == Seq::<SchemaView>::empty(),
    {
        let s = ToolSet { tools: Vec::new() };
        proof {
            assert(s.spec_names() =~= Seq::<Seq<char>>::empty());
            assert(s.spec_schemas() =~= Seq::<SchemaView>::empty());
        }
        s
    }

    /// How many tools are registered.
    pub fn len(&self) -> (n: usize)
        ensures
            n == self.spec_names().len(),
    {
        self.tools.len()
    }

    /// Registers one tool under the name its schema title carries.
    /// Validation failures and name conflicts leave the registry unchanged;
    /// on success the new entry is appended after the existing ones.
    pub fn add_tool(&mut self, tool: T, schema: SchemaNode) -> (r: Result<(), ToolSetCreationError>)
        ensures
            match r {
                Ok(()) => {
                    &&& valid_schema(schema@)
                    &&& !old(self).spec_has(title_of(schema@))
                    &&& final(self).spec_names() == old(self).spec_names().push(title_of(schema@))
                    &&& final(self).spec_schemas() == old(self).spec_schemas().push(schema@)
                    &&& final(self).spec_tool_for(title_of(schema@)) == tool
                    &&& forall|nm: Seq<char>|
                        old(self).spec_has(nm) ==> #[trigger] final(self).spec_tool_for(nm) == old(
                            self,
                        ).spec_tool_for(nm)
                },
                Err(ToolSetCreationError::NameConflict(n)) => {
                    &&& *final(self) == *old(self)
                    &&& valid_schema(schema@)
                    &&& n@ == title_of(schema@)
                    &&& old(self).spec_has(n@)
                },
                Err(ToolSetCreationError::Validation(e)) => {
                    &&& *final(self) == *old(self)
                    &&& !valid_schema(schema@)
                    &&& e is MissingMetadata
                },
            },
    {
        proof {
            use_type_invariant(&*self);
        }
        let obj = match ToolObject::try_from_tool(tool, schema) {
            Ok(o) => o,
            Err(e) => {
                return Err(ToolSetCreationError::Validation(e));
            },
        };
        let n = self.tools.len();
        let mut i: usize = 0;
        while i < n
            invariant
                n == self.tools.len(),
                0 <= i <= n,
                forall|k: int| 0 <= k < i ==> (#[trigger] self.tools@[k]).name@ != obj.name@,
                self == old(self),
                obj.wf(),
                obj.schema == schema,
                obj.spec_tool() == tool,
                obj.schema@.title == Option::Some(obj.name@),
                valid_schema(schema@),
            decreases n - i,
        {
            if self.tools[i].name == obj.name {
                proof {
                    assert(self.spec_names()[i as int] == obj.name@);
                    assert(self.spec_has(obj.name@));
                }
                return Err(ToolSetCreationError::NameConflict(obj.name));
            }
            i += 1;
        }
        proof {
            assert forall|nm: Seq<char>| old(self).spec_has(nm) implies nm != obj.name@ by {
                let k = choose|k: int|
                    0 <= k < old(self).spec_names().len() && old(self).spec_names()[k] == nm;
                assert(old(self).tools@[k].name@ == nm);
            }
            assert(!old(self).spec_has(obj.name@)) by {
                if old(self).spec_has(obj.name@) {
                    assert(obj.name@ != obj.name@);
                }
            }
        }
        let ghost oldtools = self.tools@;
        let ghost newname = obj.name@;
        let ghost newschema = obj.schema@;
        let mut grown: Vec<ToolObject<T>> = Vec::new();
        core::mem::swap(&mut self.tools, &mut grown);
        grown.push(obj);
        proof {
            let ts = grown@;
            assert(ts == oldtools.push(obj));
            assert forall|a: int, b: int| 0 <= a < b < ts.len() implies (#[trigger] ts[a]).name@
                != (#[trigger] ts[b]).name@ by {
                if b == ts.len() - 1 {
                    assert(ts[a].name@ != newname);
                }
            }
            assert(forall|k: int| 0 <= k < ts.len() ==> (#[trigger] ts[k]).wf());
        }
        core::mem::swap(&mut self.tools, &mut grown);
        proof {
            let ts = self.tools@;
            assert(ts == oldtools.push(obj));
            assert(self.spec_names() =~= seq_names(oldtools).push(newname));
            assert(self.spec_schemas() =~= oldtools.map_values(
                |o: ToolObject<T>| o.schema@,
            ).push(newschema));
            assert(title_of(newschema) == newname);
            lemma_tool_for_at(ts, newname, ts.len() - 1);
            assert forall|nm: Seq<char>| old(self).spec_has(nm) implies #[trigger] self
                .spec_tool_for(nm) == old(self).spec_tool_for(nm) by {
                let k = choose|k: int|
                    0 <= k < old(self).spec_names().len() && old(self).spec_names()[k] == nm;
                assert(oldtools[k].name@ == nm);
                lemma_tool_for_at(oldtools, nm, k);
                lemma_tool_for_at(ts, nm, k);
            }
        }
        Ok(())
    }

    /// The registered schemas, in registration order — the catalogue sent
    /// to the model with each request. The order is stable across calls
    /// within one process run.
    pub fn catalogue(&self) -> (r: Vec<&SchemaNode>)
        ensures
            r@.len() == self.spec_schemas().len(),
            forall|i: int| 0 <= i < r@.len() ==> #[trigger] r@[i]@ == self.spec_schemas()[i],
    {
        let n = self.tools.len();
        let mut r: Vec<&SchemaNode> = Vec::new();
        let mut i: usize = 0;
        while i < n
            invariant
                n == self.tools.len(),
                0 <= i <= n,
                r@.len() == i,
                forall|k: int| 0 <= k < i ==> #[trigger] r@[k]@ == self.spec_schemas()[k],
            decreases n - i,
        {
            r.push(&self.tools[i].schema);
            i += 1;
        }
        r
    }
}

impl<T: Tool> ToolSet<T> {
    /// Resolves one tool call up to execution: looks the tool up by name
    /// and decodes the argument text with the tool's own decoder. A call
    /// on a registered name never reports NotFound, and an unregistered
    /// name reports nothing else; what the registered decoder accepts is
    /// the registered tool's own affair. This is the shared front of both
    /// dispatch flavors: the blocking one below runs the instance to
    /// completion, and a suspending executor may await it instead.
    pub fn try_decode_call(&self, tool_name: &str, json: &str) -> (r: Result<T, ToolCallError>)
        ensures
            match r {
                Ok(_) => self.spec_has(tool_name@),
                Err(ToolCallError::NotFound(n)) => !self.spec_has(tool_name@) && n@ == tool_name@,
                Err(ToolCallError::Deserialization(_)) => self.spec_has(tool_name@),
            },
    {
        proof {
            use_type_invariant(&*self);
        }
        let owned: String = tool_name.to_string();
        let n = self.tools.len();
        let mut i: usize = 0;
        while i < n
            invariant
                n == self.tools.len(),
                0 <= i <= n,
                owned@ == tool_name@,
                forall|k: int| 0 <= k < i ==> (#[trigger] self.tools@[k]).name@ != tool_name@,
                names_unique(self.tools@),
            decreases n - i,
        {
            if self.tools[i].name == owned {
                proof {
                    assert(self.spec_names()[i as int] == tool_name@);
                    assert(self.spec_has(tool_name@));
                }
                let entry = &self.tools[i];
                return match entry.try_deserialize(json) {
                    Ok(t) => Ok(t),
                    Err(e) => Err(ToolCallError::Deserialization(e)),
                };
            }
            i += 1;
        }
        proof {
            assert(!self.spec_has(tool_name@)) by {
                if self.spec_has(tool_name@) {
                    let k = choose|k: int|
                        0 <= k < self.spec_names().len() && self.spec_names()[k] == tool_name@;
                    assert(self.tools@[k].name@ == tool_name@);
                }
            }
        }
        Err(ToolCallError::NotFound(owned))
    }

    /// Dispatches one tool call to completion: resolves it, then runs the
    /// decoded instance on the given context. What the executor returns —
    /// success or a failure it reports itself — comes back as the result
    /// text.
    pub fn try_tool_call(&self, context: T::Context, tool_name: &str, json: &str) -> (r: Result<
        String,
        ToolCallError,
    >)
        ensures
            match r {
                Ok(_) => self.spec_has(tool_name@),
                Err(ToolCallError::NotFound(n)) => !self.spec_has(tool_name@) && n@ == tool_name@,
                Err(ToolCallError::Deserialization(_)) => self.spec_has(tool_name@),
            },
    {
        match self.try_decode_call(tool_name, json) {
            Ok(t) => Ok(t.apply(context)),
            Err(e) => Err(e),
        }
    }
}

} // verus!
