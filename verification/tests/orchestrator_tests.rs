use toolchat::offline_tools::{ListDirectory, list_directory_schema};
use toolchat::orchestrator::{CallerEvent, Message, NextAction, Orchestrator, RoundResponse};
use toolchat::stream::{Delta, FinishKind, ToolPiece, accumulate};
use toolchat::tool::{NoContext, Tool};
use toolchat::toolset::ToolSet;

enum FileTool {
    List(ListDirectory),
}

impl Tool for FileTool {
    type Context = NoContext;

    fn try_deserialize(&self, json: &str) -> Result<Self, serde_json::Error> {
        match self {
            FileTool::List(_) => ListDirectory::try_deserialize(json).map(FileTool::List),
        }
    }

    fn apply(&self, _context: NoContext) -> String {
        match self {
            FileTool::List(t) => format!("listing {}", t.path),
        }
    }
}

fn list_toolset() -> ToolSet<FileTool> {
    let mut ts = ToolSet::new();
    ts.add_tool(FileTool::List(ListDirectory { path: String::new() }), list_directory_schema())
        .unwrap();
    ts
}

fn content_delta(text: &str) -> Delta {
    Delta { content: Some(text.to_string()), tool_calls: vec![], finish: None }
}

fn finish_delta(kind: FinishKind) -> Delta {
    Delta { content: None, tool_calls: vec![], finish: Some(kind) }
}

fn call_delta(index: u32, id: &str, name: &str, json: &str) -> Delta {
    Delta {
        content: None,
        tool_calls: vec![ToolPiece {
            index,
            id: Some(id.to_string()),
            name: Some(name.to_string()),
            arguments: Some(json.to_string()),
        }],
        finish: None,
    }
}

fn tool_round(name: &str, json: &str) -> RoundResponse {
    RoundResponse {
        deltas: vec![call_delta(0, "call-0", name, json), finish_delta(FinishKind::ToolCalls)],
        error: None,
    }
}

#[test]
fn content_only_response_is_one_round_and_idle() {
    let mut orch = Orchestrator::new(list_toolset(), 10);
    let responses = vec![RoundResponse {
        deltas: vec![content_delta("Hello"), finish_delta(FinishKind::Stop)],
        error: None,
    }];
    let out = orch.run_send(NoContext(), "hi".to_string(), responses);
    assert_eq!(out.rounds, 1);
    assert_eq!(out.events.len(), 1);
    match &out.events[0] {
        CallerEvent::Content(t) => assert_eq!(t, "Hello"),
        _ => panic!("expected a content event"),
    }
    let h = orch.history();
    assert_eq!(h.len(), 2);
    match &h[0] {
        Message::User { content } => assert_eq!(content, "hi"),
        _ => panic!("first message must be the user message"),
    }
    match &h[1] {
        Message::Assistant { content, tool_calls } => {
            assert_eq!(content.as_deref(), Some("Hello"));
            assert!(tool_calls.is_none());
        },
        _ => panic!("second message must be the assistant message"),
    }
}

#[test]
fn rounds_stop_at_the_bound() {
    let mut orch = Orchestrator::new(list_toolset(), 3);
    let responses: Vec<RoundResponse> =
        (0..10).map(|_| tool_round("ListDirectory", "{\"path\":\".\"}")).collect();
    let out = orch.run_send(NoContext(), "go".to_string(), responses);
    assert_eq!(out.rounds, 3);
    // one user message, then per round one assistant and one tool message
    assert_eq!(orch.history().len(), 1 + 3 * 2);
}

#[test]
fn tool_round_commits_calls_and_results_in_order() {
    let mut orch = Orchestrator::new(list_toolset(), 10);
    let first = RoundResponse {
        deltas: vec![
            call_delta(1, "call-b", "ListDirectory", "{\"path\":\"b\"}"),
            call_delta(0, "call-a", "ListDirectory", "{\"path\":\"a\"}"),
            finish_delta(FinishKind::ToolCalls),
        ],
        error: None,
    };
    let second = RoundResponse {
        deltas: vec![content_delta("done"), finish_delta(FinishKind::Stop)],
        error: None,
    };
    let out = orch.run_send(NoContext(), "go".to_string(), vec![first, second]);
    assert_eq!(out.rounds, 2);
    // invocations come after execution, in ascending fragment-index order
    let invocations: Vec<(String, String)> = out
        .events
        .iter()
        .filter_map(|e| match e {
            CallerEvent::ToolInvocation { name, result, .. } => {
                Some((name.clone(), result.clone()))
            },
            _ => None,
        })
        .collect();
    assert_eq!(
        invocations,
        vec![
            ("ListDirectory".to_string(), "listing a".to_string()),
            ("ListDirectory".to_string(), "listing b".to_string()),
        ]
    );
    let h = orch.history();
    // user, assistant with two calls, two tool results, assistant of round 2
    assert_eq!(h.len(), 5);
    match &h[1] {
        Message::Assistant { content, tool_calls } => {
            assert!(content.is_none());
            let calls = tool_calls.as_ref().unwrap();
            assert_eq!(calls.len(), 2);
            assert_eq!(calls[0].id, "call-a");
            assert_eq!(calls[1].id, "call-b");
        },
        _ => panic!("expected the assistant message"),
    }
    match &h[2] {
        Message::Tool { tool_call_id, content } => {
            assert_eq!(tool_call_id, "call-a");
            assert_eq!(content, "listing a");
        },
        _ => panic!("expected the first tool result"),
    }
    match &h[3] {
        Message::Tool { tool_call_id, content } => {
            assert_eq!(tool_call_id, "call-b");
            assert_eq!(content, "listing b");
        },
        _ => panic!("expected the second tool result"),
    }
}

#[test]
fn unknown_tool_call_reports_failure_text() {
    let mut orch = Orchestrator::new(list_toolset(), 10);
    let responses = vec![
        tool_round("nope", "{}"),
        RoundResponse {
            deltas: vec![content_delta("ok"), finish_delta(FinishKind::Stop)],
            error: None,
        },
    ];
    let out = orch.run_send(NoContext(), "go".to_string(), responses);
    assert_eq!(out.rounds, 2);
    let h = orch.history();
    match &h[2] {
        Message::Tool { tool_call_id, content } => {
            assert_eq!(tool_call_id, "call-0");
            assert_eq!(content, "tool not in toolset");
        },
        _ => panic!("expected a synthesized tool result"),
    }
}

#[test]
fn bad_arguments_report_failure_text() {
    let mut orch = Orchestrator::new(list_toolset(), 10);
    let responses = vec![
        tool_round("ListDirectory", "{\"bad\":1}"),
        RoundResponse {
            deltas: vec![content_delta("ok"), finish_delta(FinishKind::Stop)],
            error: None,
        },
    ];
    let out = orch.run_send(NoContext(), "go".to_string(), responses);
    assert_eq!(out.rounds, 2);
    let h = orch.history();
    match &h[2] {
        Message::Tool { content, .. } => {
            assert_eq!(content, "error deserializing tool call (possible hallucination)");
        },
        _ => panic!("expected a synthesized tool result"),
    }
}

#[test]
fn transport_error_aborts_round_without_commit() {
    let mut orch = Orchestrator::new(list_toolset(), 10);
    let responses = vec![RoundResponse {
        deltas: vec![content_delta("par"), call_delta(0, "x", "ListDirectory", "{}")],
        error: Some("connection reset".to_string()),
    }];
    let out = orch.run_send(NoContext(), "hi".to_string(), responses);
    assert_eq!(out.rounds, 0);
    assert_eq!(out.events.len(), 2);
    match &out.events[0] {
        CallerEvent::Content(t) => assert_eq!(t, "par"),
        _ => panic!("the streamed content precedes the error"),
    }
    match &out.events[1] {
        CallerEvent::Error(e) => assert_eq!(e, "connection reset"),
        _ => panic!("the error ends the event stream"),
    }
    // nothing was committed beyond the user message
    assert_eq!(orch.history().len(), 1);
}

#[test]
fn zero_round_bound_commits_nothing() {
    let mut orch = Orchestrator::new(list_toolset(), 0);
    let responses = vec![RoundResponse {
        deltas: vec![content_delta("Hello"), finish_delta(FinishKind::Stop)],
        error: None,
    }];
    let out = orch.run_send(NoContext(), "hi".to_string(), responses);
    assert_eq!(out.rounds, 0);
    assert_eq!(orch.history().len(), 1);
}

#[test]
fn stepwise_commit_matches_accumulated_parts() {
    let mut orch = Orchestrator::new(list_toolset(), 2);
    orch.send_message("go".to_string());
    assert!(orch.rounds_left());
    let deltas = vec![
        call_delta(0, "c1", "ListDirectory", "{\"path\":\"x\"}"),
        finish_delta(FinishKind::ToolCalls),
    ];
    let parts = accumulate(&deltas);
    let (events, next) = orch.commit_round(NoContext(), parts);
    assert_eq!(next, NextAction::Request);
    assert_eq!(events.len(), 1);
    match &events[0] {
        CallerEvent::ToolInvocation { name, json, result } => {
            assert_eq!(name, "ListDirectory");
            assert_eq!(json, "{\"path\":\"x\"}");
            assert_eq!(result, "listing x");
        },
        _ => panic!("expected the invocation event"),
    }
    let parts = accumulate(&vec![content_delta("bye"), finish_delta(FinishKind::Stop)]);
    let (_, next) = orch.commit_round(NoContext(), parts);
    assert_eq!(next, NextAction::Idle);
    assert!(!orch.rounds_left());
    // beyond the bound nothing is committed
    let history_len = orch.history().len();
    let parts = accumulate(&vec![content_delta("extra"), finish_delta(FinishKind::Stop)]);
    let (events, next) = orch.commit_round(NoContext(), parts);
    assert_eq!(next, NextAction::Idle);
    assert!(events.is_empty());
    assert_eq!(orch.history().len(), history_len);
}
