//! The part of a tool's JSON schema that registration reads, and its
//! validation: a registered tool must carry a title and, on the top level
//! and on every nested object property, a non-empty description.

use vstd::prelude::*;
use crate::stream::opt_view;

verus! {

/// What registration reads of a tool's JSON schema: the title naming the
/// tool, the description, and the named object properties, each with its
/// own nested schema.
pub struct SchemaNode {
    pub title: Option<String>,
    pub description: Option<String>,
    pub properties: Vec<(String, SchemaNode)>,
}

/// The mathematical view of a schema node.
pub struct SchemaView {
    pub title: Option<Seq<char>>,
    pub description: Option<Seq<char>>,
    pub properties: Seq<(Seq<char>, SchemaView)>,
}

pub open spec fn schema_view(n: SchemaNode) -> SchemaView
    decreases n,
{
    SchemaView {
        title: opt_view(n.title),
        description: opt_view(n.description),
        properties: props_view(n.properties@),
    }
}

pub open spec fn props_view(ps: Seq<(String, SchemaNode)>) -> Seq<(Seq<char>, SchemaView)>
    decreases ps,
{
    if ps.len() == 0 {
        Seq::empty()
    } else {
        seq![(ps[0].0@, schema_view(ps[0].1))] + props_view(ps.drop_first())
    }
}

/// The view of a property list is the list of property views, in order.
pub proof fn lemma_props_view(ps: Seq<(String, SchemaNode)>)
    ensures
        props_view(ps).len() == ps.len(),
        forall|i: int| 0 <= i < ps.len() ==> #[trigger] props_view(ps)[i] == (
        ps[i].0@,
        schema_view(ps[i].1),
        ),
    decreases ps,
{
    if ps.len() != 0 {
        lemma_props_view(ps.drop_first());
        assert forall|i: int| 0 <= i < ps.len() implies #[trigger] props_view(ps)[i] == (
            ps[i].0@,
            schema_view(ps[i].1),
        ) by {
            if i > 0 {
                assert(props_view(ps.drop_first())[i - 1] == (
                    ps.drop_first()[i - 1].0@,
                    schema_view(ps.drop_first()[i - 1].1),
                ));
            }
        }
    }
}

impl View for SchemaNode {
    type V = SchemaView;

    open spec fn view(&self) -> SchemaView {
        schema_view(*self)
    }
}

/// A build-time defect in a tool's schema.
#[derive(Debug)]
pub enum ValidationError {
    /// The schema misses its title, or a description is absent or empty
    /// somewhere in it.
    MissingMetadata,
    /// The schema could not be rendered as JSON.
    JsonSerialization(serde_json::Error),
}

/// The schema and, recursively, every nested object property carry a
/// non-empty description.
pub open spec fn described(v: SchemaView) -> bool
    decreases v,
{
    &&& match v.description {
        Option::Some(d) => d.len() > 0,
        Option::None => false,
    }
    &&& forall|i: int| 0 <= i < v.properties.len() ==> described(#[trigger] v.properties[i].1)
}

/// The schema carries the title that names the tool.
pub open spec fn titled(v: SchemaView) -> bool {
    v.title is Some
}

/// The description and title validation both pass.
pub open spec fn valid_schema(v: SchemaView) -> bool {
    titled(v) && described(v)
}

/// The name the schema title gives the tool; empty when the title is absent.
pub open spec fn title_of(v: SchemaView) -> Seq<char> {
    match v.title {
        Option::Some(t) => t,
        Option::None => Seq::empty(),
    }
}

/// Checks that the schema and every nested object property carry a
/// non-empty description, and returns the top-level description.
pub fn validate_tool_description(schema: &SchemaNode) -> (r: Result<String, ValidationError>)
    ensures
        match r {
            Ok(d) => described(schema@) && schema@.description == Option::Some(d@),
            Err(e) => !described(schema@) && e is MissingMetadata,
        },
    decreases *schema,
{
    let description = match &schema.description {
        Option::Some(d) => {
            if d.as_str().is_empty() {
                return Err(ValidationError::MissingMetadata);
            }
            d.clone()
        },
        Option::None => {
            return Err(ValidationError::MissingMetadata);
        },
    };
    let n = schema.properties.len();
    let mut i: usize = 0;
    while i < n
        invariant
            n == schema.properties.len(),
            0 <= i <= n,
            forall|k: int| 0 <= k < i ==> described(#[trigger] schema@.properties[k].1),
        decreases n - i,
    {
        let p = &schema.properties[i];
        proof {
            lemma_props_view(schema.properties@);
            assert(schema@.properties[i as int].1 == schema_view(p.1));
        }
        match validate_tool_description(&p.1) {
            Ok(_) => {},
            Err(e) => {
                return Err(e);
            },
        }
        i += 1;
    }
    proof {
        lemma_props_view(schema.properties@);
        assert(schema@.properties.len() == n);
        assert(described(schema@));
    }
    Ok(description)
}

/// Extracts the tool's name from the schema title and validates the
/// descriptions; this is what registration runs over a tool's schema.
pub fn validate_tool_schema(schema: &SchemaNode) -> (r: Result<(String, String), ValidationError>)
    ensures
        match r {
            Ok(p) => valid_schema(schema@) && schema@.title == Option::Some(p.0@)
                && schema@.description == Option::Some(p.1@),
            Err(e) => !valid_schema(schema@) && e is MissingMetadata,
        },
{
    let name = match &schema.title {
        Option::Some(t) => t.clone(),
        Option::None => {
            return Err(ValidationError::MissingMetadata);
        },
    };
    let description = match validate_tool_description(schema) {
        Ok(d) => d,
        Err(e) => {
            return Err(e);
        },
    };
    Ok((name, description))
}

} // verus!
