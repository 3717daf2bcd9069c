use toolchat::offline_tools::{
    CreateFile, EditFile, ListDirectory, ReadFiles, create_file_schema, edit_file_schema,
    list_directory_schema, read_files_schema,
};
use toolchat::schema::{SchemaNode, ValidationError};
use toolchat::tool::{NoContext, Tool};
use toolchat::tool_object::ToolObject;
use toolchat::toolset::{ToolCallError, ToolSet, ToolSetCreationError};

enum FileTool {
    List(ListDirectory),
    Read(ReadFiles),
    Edit(EditFile),
    Create(CreateFile),
}

impl Tool for FileTool {
    type Context = NoContext;

    fn try_deserialize(&self, json: &str) -> Result<Self, serde_json::Error> {
        match self {
            FileTool::List(_) => ListDirectory::try_deserialize(json).map(FileTool::List),
            FileTool::Read(_) => ReadFiles::try_deserialize(json).map(FileTool::Read),
            FileTool::Edit(_) => EditFile::try_deserialize(json).map(FileTool::Edit),
            FileTool::Create(_) => CreateFile::try_deserialize(json).map(FileTool::Create),
        }
    }

    fn apply(&self, _context: NoContext) -> String {
        match self {
            FileTool::List(t) => format!("listing {}", t.path),
            FileTool::Read(t) => format!("reading {} files", t.paths.len()),
            FileTool::Edit(t) => format!("editing {}", t.path),
            FileTool::Create(t) => format!("creating {}", t.path),
        }
    }
}

fn list_proto() -> FileTool {
    FileTool::List(ListDirectory { path: String::new() })
}

fn file_toolset() -> ToolSet<FileTool> {
    let mut ts = ToolSet::new();
    ts.add_tool(list_proto(), list_directory_schema()).unwrap();
    ts.add_tool(FileTool::Read(ReadFiles { paths: vec![] }), read_files_schema()).unwrap();
    ts.add_tool(
        FileTool::Edit(EditFile { path: String::new(), contents: String::new() }),
        edit_file_schema(),
    )
        .unwrap();
    ts.add_tool(
        FileTool::Create(CreateFile { path: String::new(), contents: String::new() }),
        create_file_schema(),
    )
        .unwrap();
    ts
}

fn expect_invalid(r: Result<ToolObject<FileTool>, ValidationError>) -> ValidationError {
    match r {
        Ok(_) => panic!("expected a validation failure"),
        Err(e) => e,
    }
}

#[test]
fn registered_deserializer_round_trips() {
    let obj = ToolObject::try_from_tool(list_proto(), list_directory_schema()).unwrap();
    assert_eq!(obj.name, "ListDirectory");
    assert_eq!(obj.description, "list the files in a directory");
    let t = obj.try_deserialize("{\"path\":\"src\"}").unwrap();
    match t {
        FileTool::List(ld) => assert_eq!(ld.path, "src"),
        _ => panic!("decoded into the wrong tool"),
    }
}

#[test]
fn duplicate_name_fails_and_first_stays_callable() {
    let mut ts = ToolSet::new();
    ts.add_tool(list_proto(), list_directory_schema()).unwrap();
    let e = ts
        .add_tool(
            FileTool::Edit(EditFile { path: String::new(), contents: String::new() }),
            list_directory_schema(),
        )
        .unwrap_err();
    match e {
        ToolSetCreationError::NameConflict(n) => assert_eq!(n, "ListDirectory"),
        ToolSetCreationError::Validation(_) => panic!("expected a name conflict"),
    }
    let out = ts.try_tool_call(NoContext(), "ListDirectory", "{\"path\":\".\"}").unwrap();
    assert_eq!(out, "listing .");
}

#[test]
fn dispatch_missing_tool_reports_not_found() {
    let empty: ToolSet<FileTool> = ToolSet::new();
    let e = empty.try_tool_call(NoContext(), "list_directory", "{\"path\":\".\"}").unwrap_err();
    match e {
        ToolCallError::NotFound(n) => assert_eq!(n, "list_directory"),
        ToolCallError::Deserialization(_) => panic!("expected NotFound"),
    }
}

#[test]
fn dispatch_bad_arguments_reports_deserialization() {
    let ts = file_toolset();
    let e = ts.try_tool_call(NoContext(), "ListDirectory", "{\"bad\":1}").unwrap_err();
    assert!(matches!(e, ToolCallError::Deserialization(_)));
}

#[test]
fn dispatch_malformed_json_reports_deserialization() {
    let ts = file_toolset();
    let e = ts.try_tool_call(NoContext(), "ListDirectory", "{\"path\":").unwrap_err();
    assert!(matches!(e, ToolCallError::Deserialization(_)));
}

#[test]
fn schema_without_title_is_rejected() {
    let schema = SchemaNode {
        title: None,
        description: Some("well described".to_string()),
        properties: vec![],
    };
    let e = expect_invalid(ToolObject::try_from_tool(list_proto(), schema));
    assert!(matches!(e, ValidationError::MissingMetadata));
}

#[test]
fn schema_without_description_is_rejected() {
    let schema = SchemaNode { title: Some("Bare".to_string()), description: None, properties: vec![] };
    let e = expect_invalid(ToolObject::try_from_tool(list_proto(), schema));
    assert!(matches!(e, ValidationError::MissingMetadata));
}

#[test]
fn empty_description_is_rejected() {
    let schema = SchemaNode {
        title: Some("Bare".to_string()),
        description: Some(String::new()),
        properties: vec![],
    };
    let e = expect_invalid(ToolObject::try_from_tool(list_proto(), schema));
    assert!(matches!(e, ValidationError::MissingMetadata));
}

#[test]
fn nested_property_without_description_is_rejected() {
    let bare_property = SchemaNode { title: None, description: None, properties: vec![] };
    let schema = SchemaNode {
        title: Some("Outer".to_string()),
        description: Some("outer".to_string()),
        properties: vec![("inner".to_string(), bare_property)],
    };
    let e = expect_invalid(ToolObject::try_from_tool(list_proto(), schema));
    assert!(matches!(e, ValidationError::MissingMetadata));
}

#[test]
fn deeply_nested_descriptions_are_accepted() {
    let leaf = SchemaNode {
        title: None,
        description: Some("leaf".to_string()),
        properties: vec![],
    };
    let mid = SchemaNode {
        title: None,
        description: Some("mid".to_string()),
        properties: vec![("leaf".to_string(), leaf)],
    };
    let schema = SchemaNode {
        title: Some("Outer".to_string()),
        description: Some("outer".to_string()),
        properties: vec![("mid".to_string(), mid)],
    };
    let obj = ToolObject::try_from_tool(list_proto(), schema).unwrap();
    assert_eq!(obj.name, "Outer");
    assert_eq!(obj.description, "outer");
}

#[test]
fn catalogue_keeps_registration_order() {
    let ts = file_toolset();
    assert_eq!(ts.len(), 4);
    let names: Vec<String> = ts
        .catalogue()
        .iter()
        .map(|s| s.title.clone().unwrap())
        .collect();
    assert_eq!(names, vec!["ListDirectory", "ReadFiles", "EditFile", "CreateFile"]);
}

#[test]
fn read_files_decodes_paths() {
    let ts = file_toolset();
    let out = ts
        .try_tool_call(NoContext(), "ReadFiles", "{\"paths\":[\"a.txt\",\"b.txt\"]}")
        .unwrap();
    assert_eq!(out, "reading 2 files");
    let e = ts.try_tool_call(NoContext(), "ReadFiles", "{\"paths\":\"a.txt\"}").unwrap_err();
    assert!(matches!(e, ToolCallError::Deserialization(_)));
    let e = ts.try_tool_call(NoContext(), "ReadFiles", "{\"paths\":[1,2]}").unwrap_err();
    assert!(matches!(e, ToolCallError::Deserialization(_)));
}

#[test]
fn edit_file_decodes_path_and_contents() {
    let obj = ToolObject::try_from_tool(
        FileTool::Edit(EditFile { path: String::new(), contents: String::new() }),
        edit_file_schema(),
    )
        .unwrap();
    let t = obj.try_deserialize("{\"path\":\"a.txt\",\"contents\":\"hi\"}").unwrap();
    match t {
        FileTool::Edit(e) => {
            assert_eq!(e.path, "a.txt");
            assert_eq!(e.contents, "hi");
        },
        _ => panic!("decoded into the wrong tool"),
    }
    assert!(obj.try_deserialize("{\"path\":\"a.txt\"}").is_err());
}

#[test]
fn create_file_decodes_path_and_contents() {
    let obj = ToolObject::try_from_tool(
        FileTool::Create(CreateFile { path: String::new(), contents: String::new() }),
        create_file_schema(),
    )
        .unwrap();
    let t = obj.try_deserialize("{\"path\":\"new.txt\",\"contents\":\"body\"}").unwrap();
    match t {
        FileTool::Create(c) => {
            assert_eq!(c.path, "new.txt");
            assert_eq!(c.contents, "body");
        },
        _ => panic!("decoded into the wrong tool"),
    }
    assert!(obj.try_deserialize("{\"contents\":\"body\"}").is_err());
}

#[test]
fn decode_call_resolves_without_executing() {
    let ts = file_toolset();
    let t = match ts.try_decode_call("ListDirectory", "{\"path\":\"src\"}") {
        Ok(t) => t,
        Err(_) => panic!("expected a decoded instance"),
    };
    match t {
        FileTool::List(ld) => assert_eq!(ld.path, "src"),
        _ => panic!("decoded into the wrong tool"),
    }
    let e = match ts.try_decode_call("nope", "{}") {
        Ok(_) => panic!("expected a lookup failure"),
        Err(e) => e,
    };
    assert!(matches!(e, ToolCallError::NotFound(_)));
}

#[test]
fn executor_failure_text_is_a_plain_result() {
    // a tool that reports its own failure returns it as result text, not an error
    let mut ts = ToolSet::new();
    ts.add_tool(list_proto(), list_directory_schema()).unwrap();
    let out = ts.try_tool_call(NoContext(), "ListDirectory", "{\"path\":\"/nowhere\"}").unwrap();
    assert_eq!(out, "listing /nowhere");
}
