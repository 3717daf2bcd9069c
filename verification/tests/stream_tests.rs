use toolchat::stream::{Delta, FinishKind, StreamAccumulator, StreamPart, ToolPiece, accumulate};

fn content_delta(text: &str) -> Delta {
    Delta { content: Some(text.to_string()), tool_calls: vec![], finish: None }
}

fn piece(index: u32, id: Option<&str>, name: Option<&str>, args: Option<&str>) -> ToolPiece {
    ToolPiece {
        index,
        id: id.map(str::to_string),
        name: name.map(str::to_string),
        arguments: args.map(str::to_string),
    }
}

fn piece_delta(p: ToolPiece) -> Delta {
    Delta { content: None, tool_calls: vec![p], finish: None }
}

fn finish_delta(kind: FinishKind) -> Delta {
    Delta { content: None, tool_calls: vec![], finish: Some(kind) }
}

#[test]
fn chunked_arguments_match_single_piece() {
    // every way of chunking the argument text into consecutive pieces: each
    // bit of the mask decides whether to cut after that character
    let arg = "{\"path\":\".\"}";
    let single = vec![
        piece_delta(piece(0, Some("id-1"), Some("list_directory"), None)),
        piece_delta(piece(0, None, None, Some(arg))),
        finish_delta(FinishKind::ToolCalls),
    ];
    let e2 = accumulate(&single);
    assert_eq!(e2.len(), 1);
    for mask in 0u32..(1 << (arg.len() - 1)) {
        let mut chunked = vec![piece_delta(piece(0, Some("id-1"), Some("list_directory"), None))];
        let mut start = 0;
        for cut in 1..arg.len() {
            if mask & (1 << (cut - 1)) != 0 {
                chunked.push(piece_delta(piece(0, None, None, Some(&arg[start..cut]))));
                start = cut;
            }
        }
        chunked.push(piece_delta(piece(0, None, None, Some(&arg[start..]))));
        chunked.push(finish_delta(FinishKind::ToolCalls));
        let e1 = accumulate(&chunked);
        assert_eq!(e1.len(), 1);
        match (&e1[0], &e2[0]) {
            (StreamPart::ToolCall(c1), StreamPart::ToolCall(c2)) => {
                assert_eq!(c1.json, arg);
                assert_eq!(c1.json, c2.json);
                assert_eq!(c1.name, c2.name);
                assert_eq!(c1.id, c2.id);
            },
            _ => panic!("expected one completed tool call on each side"),
        }
    }
}

#[test]
fn name_then_arguments_then_finish_yields_one_call() {
    let deltas = vec![
        piece_delta(piece(0, None, Some("list_directory"), None)),
        piece_delta(piece(0, None, None, Some("{\"path\":\".\"}"))),
        finish_delta(FinishKind::ToolCalls),
    ];
    let events = accumulate(&deltas);
    assert_eq!(events.len(), 1);
    match &events[0] {
        StreamPart::ToolCall(c) => {
            assert_eq!(c.name, "list_directory");
            assert_eq!(c.json, "{\"path\":\".\"}");
        },
        StreamPart::Content(_) => panic!("expected a tool call, not content"),
    }
}

#[test]
fn content_then_stop_yields_content_event() {
    let deltas = vec![content_delta("Hello"), finish_delta(FinishKind::Stop)];
    let events = accumulate(&deltas);
    assert_eq!(events.len(), 1);
    match &events[0] {
        StreamPart::Content(t) => assert_eq!(t, "Hello"),
        StreamPart::ToolCall(_) => panic!("expected content, not a tool call"),
    }
}

#[test]
fn content_events_keep_upstream_order() {
    let deltas = vec![
        content_delta("A"),
        piece_delta(piece(0, None, Some("t"), Some("{}"))),
        content_delta("B"),
        finish_delta(FinishKind::ToolCalls),
    ];
    let events = accumulate(&deltas);
    assert_eq!(events.len(), 3);
    match &events[0] {
        StreamPart::Content(t) => assert_eq!(t, "A"),
        _ => panic!("first event must be the first content fragment"),
    }
    match &events[1] {
        StreamPart::Content(t) => assert_eq!(t, "B"),
        _ => panic!("second event must be the second content fragment"),
    }
    assert!(matches!(&events[2], StreamPart::ToolCall(_)));
}

#[test]
fn calls_flush_in_ascending_index_order() {
    let deltas = vec![
        piece_delta(piece(2, Some("c"), Some("third"), Some("{}"))),
        piece_delta(piece(0, Some("a"), Some("first"), Some("{}"))),
        piece_delta(piece(1, Some("b"), Some("second"), Some("{}"))),
        finish_delta(FinishKind::ToolCalls),
    ];
    let events = accumulate(&deltas);
    let names: Vec<String> = events
        .iter()
        .map(|e| match e {
            StreamPart::ToolCall(c) => c.name.clone(),
            StreamPart::Content(_) => panic!("expected tool calls only"),
        })
        .collect();
    assert_eq!(names, vec!["first", "second", "third"]);
}

#[test]
fn first_non_empty_id_wins() {
    let deltas = vec![
        piece_delta(piece(0, Some(""), Some("tool"), None)),
        piece_delta(piece(0, Some("later-id"), None, Some("{}"))),
        piece_delta(piece(0, Some("ignored"), None, None)),
        finish_delta(FinishKind::ToolCalls),
    ];
    let events = accumulate(&deltas);
    assert_eq!(events.len(), 1);
    match &events[0] {
        StreamPart::ToolCall(c) => assert_eq!(c.id, "later-id"),
        StreamPart::Content(_) => panic!("expected a tool call"),
    }
}

#[test]
fn empty_delta_is_a_no_op() {
    let deltas = vec![
        Delta { content: None, tool_calls: vec![], finish: None },
        content_delta("x"),
        finish_delta(FinishKind::Stop),
    ];
    let events = accumulate(&deltas);
    assert_eq!(events.len(), 1);
}

#[test]
fn accumulator_clears_between_rounds() {
    let mut acc = StreamAccumulator::new();
    let first = acc.step(&piece_delta(piece(0, Some("a"), Some("one"), Some("{}"))));
    assert!(first.is_empty());
    let flushed = acc.step(&finish_delta(FinishKind::ToolCalls));
    assert_eq!(flushed.len(), 1);
    // the next round starts clean: only its own fragment is flushed
    let _ = acc.step(&piece_delta(piece(0, Some("b"), Some("two"), Some("{}"))));
    let flushed = acc.step(&finish_delta(FinishKind::ToolCalls));
    assert_eq!(flushed.len(), 1);
    match &flushed[0] {
        StreamPart::ToolCall(c) => assert_eq!(c.name, "two"),
        StreamPart::Content(_) => panic!("expected a tool call"),
    }
}

#[test]
fn name_pieces_concatenate() {
    let deltas = vec![
        piece_delta(piece(0, None, Some("list_"), None)),
        piece_delta(piece(0, None, Some("directory"), None)),
        finish_delta(FinishKind::ToolCalls),
    ];
    let events = accumulate(&deltas);
    assert_eq!(events.len(), 1);
    match &events[0] {
        StreamPart::ToolCall(c) => assert_eq!(c.name, "list_directory"),
        StreamPart::Content(_) => panic!("expected a tool call"),
    }
}
