//! The built-in file tools' argument types, their deserializers, and the
//! schemas under which they are registered. The operations themselves touch
//! the file system and live with the embedding program; the library holds
//! the typed arguments, their decoding and their schemas.

use vstd::prelude::*;
use crate::schema::{SchemaNode, valid_schema};
use crate::stream::seq_of_views;

verus! {

/// Arguments of the tool that lists the files in a directory.
pub struct ListDirectory {
    pub path: String,
}

/// Arguments of the tool that reads one or more files.
pub struct ReadFiles {
    pub paths: Vec<String>,
}

/// Arguments of the tool that replaces a file's contents.
pub struct EditFile {
    pub path: String,
    pub contents: String,
}

/// Arguments of the tool that creates a new file.
pub struct CreateFile {
    pub path: String,
    pub contents: String,
}

impl View for ListDirectory {
    type V = Seq<char>;

    open spec fn view(&self) -> Seq<char> {
        self.path@
    }
}

impl View for ReadFiles {
    type V = Seq<Seq<char>>;

    open spec fn view(&self) -> Seq<Seq<char>> {
        seq_of_views(self.paths@)
    }
}

impl View for EditFile {
    type V = (Seq<char>, Seq<char>);

    open spec fn view(&self) -> (Seq<char>, Seq<char>) {
        (self.path@, self.contents@)
    }
}

impl View for CreateFile {
    type V = (Seq<char>, Seq<char>);

    open spec fn view(&self) -> (Seq<char>, Seq<char>) {
        (self.path@, self.contents@)
    }
}

/// The path a ListDirectory argument text denotes, if the text is a JSON
/// object of the tool's shape.
pub uninterp spec fn list_directory_args(text: Seq<char>) -> Option<Seq<char>>;

/// The paths a ReadFiles argument text denotes, if the text is a JSON
/// object of the tool's shape.
pub uninterp spec fn read_files_args(text: Seq<char>) -> Option<Seq<Seq<char>>>;

/// The path and contents an EditFile argument text denotes, if the text is
/// a JSON object of the tool's shape.
pub uninterp spec fn edit_file_args(text: Seq<char>) -> Option<(Seq<char>, Seq<char>)>;

/// The path and contents a CreateFile argument text denotes, if the text
/// is a JSON object of the tool's shape.
pub uninterp spec fn create_file_args(text: Seq<char>) -> Option<(Seq<char>, Seq<char>)>;

/// ListDirectory's deserializer. Relies on serde_json::from_str and on
/// serde_json::Value::{get, as_str}: whether the text parses as JSON and
/// which string stands under its `path` field depend on the text alone.
#[verifier::external_body]
fn decode_list_directory(json: &str) -> (r: Result<ListDirectory, serde_json::Error>)
    ensures
        match r {
            Ok(t) => list_directory_args(json@) == Option::Some(t@),
            Err(_) => list_directory_args(json@) is None,
        },
{
    let v: serde_json::Value = serde_json::from_str(json)?;
    match v.get("path").and_then(serde_json::Value::as_str) {
        Some(p) => Ok(ListDirectory { path: p.to_string() }),
        None => Err(<serde_json::Error as serde::de::Error>::missing_field("path")),
    }
}

/// ReadFiles' deserializer. Relies on serde_json::from_str and on
/// serde_json::Value::{get, as_array, as_str}: whether the text parses as
/// JSON and which strings stand under its `paths` field depend on the text
/// alone.
#[verifier::external_body]
fn decode_read_files(json: &str) -> (r: Result<ReadFiles, serde_json::Error>)
    ensures
        match r {
            Ok(t) => read_files_args(json@) == Option::Some(t@),
            Err(_) => read_files_args(json@) is None,
        },
{
    let v: serde_json::Value = serde_json::from_str(json)?;
    let xs = match v.get("paths").and_then(serde_json::Value::as_array) {
        Some(xs) => xs,
        None => return Err(<serde_json::Error as serde::de::Error>::missing_field("paths")),
    };
    match xs.iter().map(|x| x.as_str().map(str::to_string)).collect::<Option<Vec<String>>>() {
        Some(paths) => Ok(ReadFiles { paths }),
        None => Err(<serde_json::Error as serde::de::Error>::custom("paths must hold strings")),
    }
}

/// EditFile's deserializer. Relies on serde_json::from_str and on
/// serde_json::Value::{get, as_str}: whether the text parses as JSON and
/// which strings stand under its `path` and `contents` fields depend on
/// the text alone.
#[verifier::external_body]
fn decode_edit_file(json: &str) -> (r: Result<EditFile, serde_json::Error>)
    ensures
        match r {
            Ok(t) => edit_file_args(json@) == Option::Some(t@),
            Err(_) => edit_file_args(json@) is None,
        },
{
    let v: serde_json::Value = serde_json::from_str(json)?;
    match (
        v.get("path").and_then(serde_json::Value::as_str),
        v.get("contents").and_then(serde_json::Value::as_str),
    ) {
        (Some(p), Some(c)) => Ok(EditFile { path: p.to_string(), contents: c.to_string() }),
        _ => Err(<serde_json::Error as serde::de::Error>::missing_field("path and contents")),
    }
}

/// CreateFile's deserializer. Relies on serde_json::from_str and on
/// serde_json::Value::{get, as_str}: whether the text parses as JSON and
/// which strings stand under its `path` and `contents` fields depend on
/// the text alone.
#[verifier::external_body]
fn decode_create_file(json: &str) -> (r: Result<CreateFile, serde_json::Error>)
    ensures
        match r {
            Ok(t) => create_file_args(json@) == Option::Some(t@),
            Err(_) => create_file_args(json@) is None,
        },
{
    let v: serde_json::Value = serde_json::from_str(json)?;
    match (
        v.get("path").and_then(serde_json::Value::as_str),
        v.get("contents").and_then(serde_json::Value::as_str),
    ) {
        (Some(p), Some(c)) => Ok(CreateFile { path: p.to_string(), contents: c.to_string() }),
        _ => Err(<serde_json::Error as serde::de::Error>::missing_field("path and contents")),
    }
}

impl ListDirectory {
    /// Decodes argument text into the tool's typed arguments.
    pub fn try_deserialize(json: &str) -> (r: Result<ListDirectory, serde_json::Error>)
        ensures
            match r {
                Ok(t) => list_directory_args(json@) == Option::Some(t@),
                Err(_) => list_directory_args(json@) is None,
            },
    {
        decode_list_directory(json)
    }
}

impl ReadFiles {
    /// Decodes argument text into the tool's typed arguments.
    pub fn try_deserialize(json: &str) -> (r: Result<ReadFiles, serde_json::Error>)
        ensures
            match r {
                Ok(t) => read_files_args(json@) == Option::Some(t@),
                Err(_) => read_files_args(json@) is None,
            },
    {
        decode_read_files(json)
    }
}

impl EditFile {
    /// Decodes argument text into the tool's typed arguments.
    pub fn try_deserialize(json: &str) -> (r: Result<EditFile, serde_json::Error>)
        ensures
            match r {
                Ok(t) => edit_file_args(json@) == Option::Some(t@),
                Err(_) => edit_file_args(json@) is None,
            },
    {
        decode_edit_file(json)
    }
}

impl CreateFile {
    /// Decodes argument text into the tool's typed arguments.
    pub fn try_deserialize(json: &str) -> (r: Result<CreateFile, serde_json::Error>)
        ensures
            match r {
                Ok(t) => create_file_args(json@) == Option::Some(t@),
                Err(_) => create_file_args(json@) is None,
            },
    {
        decode_create_file(json)
    }
}

/// A leaf property schema: no title, one description, no nested properties.
fn property_schema(description: &str) -> (s: SchemaNode)
    ensures
        s@.title is None,
        s@.description == Option::Some(description@),
        s@.properties.len() == 0,
{
    SchemaNode {
        title: Option::None,
        description: Option::Some(description.to_string()),
        properties: Vec::new(),
    }
}

/// The schema under which ListDirectory registers.
pub fn list_directory_schema() -> (s: SchemaNode)
    ensures
        s@.title == Option::Some("ListDirectory"@),
        s@.description == Option::Some("list the files in a directory"@),
        valid_schema(s@),
{
    let mut properties: Vec<(String, SchemaNode)> = Vec::new();
    properties.push(("path".to_string(), property_schema("file path to list")));
    let s = SchemaNode {
        title: Option::Some("ListDirectory".to_string()),
        description: Option::Some("list the files in a directory".to_string()),
        properties,
    };
    proof {
        reveal_strlit("list the files in a directory");
        reveal_strlit("file path to list");
        crate::schema::lemma_props_view(s.properties@);
        assert(s@.properties.len() == 1);
        assert(s@.properties[0].1 == crate::schema::schema_view(s.properties@[0].1));
        assert(crate::schema::described(s@.properties[0].1));
        assert(crate::schema::described(s@));
        assert(valid_schema(s@));
    }
    s
}

/// The schema under which ReadFiles registers.
pub fn read_files_schema() -> (s: SchemaNode)
    ensures
        s@.title == Option::Some("ReadFiles"@),
        s@.description == Option::Some(
            "Read one or more files and add their contents to context"@,
        ),
        valid_schema(s@),
{
    let mut properties: Vec<(String, SchemaNode)> = Vec::new();
    properties.push(
        ("paths".to_string(), property_schema("a list of relative file paths to read")),
    );
    let s = SchemaNode {
        title: Option::Some("ReadFiles".to_string()),
        description: Option::Some(
            "Read one or more files and add their contents to context".to_string(),
        ),
        properties,
    };
    proof {
        reveal_strlit("Read one or more files and add their contents to context");
        reveal_strlit("a list of relative file paths to read");
        crate::schema::lemma_props_view(s.properties@);
        assert(s@.properties[0].1 == crate::schema::schema_view(s.properties@[0].1));
        assert(crate::schema::described(s@.properties[0].1));
        assert(valid_schema(s@));
    }
    s
}

/// The schema under which EditFile registers.
pub fn edit_file_schema() -> (s: SchemaNode)
    ensures
        s@.title == Option::Some("EditFile"@),
        s@.description == Option::Some("Edit a file by replacing its contents (read it first)"@),
        valid_schema(s@),
{
    let mut properties: Vec<(String, SchemaNode)> = Vec::new();
    properties.push(("path".to_string(), property_schema("file path edit")));
    properties.push(("contents".to_string(), property_schema("the new contents of the file")));
    let s = SchemaNode {
        title: Option::Some("EditFile".to_string()),
        description: Option::Some(
            "Edit a file by replacing its contents (read it first)".to_string(),
        ),
        properties,
    };
    proof {
        reveal_strlit("Edit a file by replacing its contents (read it first)");
        reveal_strlit("file path edit");
        reveal_strlit("the new contents of the file");
        crate::schema::lemma_props_view(s.properties@);
        assert(s@.properties[0].1 == crate::schema::schema_view(s.properties@[0].1));
        assert(s@.properties[1].1 == crate::schema::schema_view(s.properties@[1].1));
        assert(crate::schema::described(s@.properties[0].1));
        assert(crate::schema::described(s@.properties[1].1));
        assert(valid_schema(s@));
    }
    s
}

/// The schema under which CreateFile registers.
pub fn create_file_schema() -> (s: SchemaNode)
    ensures
        s@.title == Option::Some("CreateFile"@),
        s@.description == Option::Some(
            "Create a new file with the given contents. Asks for confirmation and fails if file already exists."@,
        ),
        valid_schema(s@),
{
    let mut properties: Vec<(String, SchemaNode)> = Vec::new();
    properties.push(("path".to_string(), property_schema("file path to create")));
    properties.push(("contents".to_string(), property_schema("the contents of the new file")));
    let s = SchemaNode {
        title: Option::Some("CreateFile".to_string()),
        description: Option::Some(
            "Create a new file with the given contents. Asks for confirmation and fails if file already exists.".to_string(),
        ),
        properties,
    };
    proof {
        reveal_strlit(
            "Create a new file with the given contents. Asks for confirmation and fails if file already exists.",
        );
        reveal_strlit("file path to create");
        reveal_strlit("the contents of the new file");
        crate::schema::lemma_props_view(s.properties@);
        assert(s@.properties[0].1 == crate::schema::schema_view(s.properties@[0].1));
        assert(s@.properties[1].1 == crate::schema::schema_view(s.properties@[1].1));
        assert(crate::schema::described(s@.properties[0].1));
        assert(crate::schema::described(s@.properties[1].1));
        assert(valid_schema(s@));
    }
    s
}

} // verus!
