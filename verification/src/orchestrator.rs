//! The conversation orchestrator: the append-only message history, the
//! commit of one request/stream/execute round, and the round-bounded send
//! loop.

use vstd::prelude::*;
use crate::stream::{
    Delta, DeltaView, FragView, PartView, StreamPart, ToolCall, ToolCallView, accumulate,
    run_parts, seq_of_views,
};
use crate::schema::SchemaNode;
use crate::tool::Tool;
use crate::toolset::{ToolCallError, ToolSet};

verus! {

/// One message of the conversation. The history only ever grows, by one
/// user message per send and by one assistant message plus one tool-result
/// message per executed call per round.
pub enum Message {
    User { content: String },
    Assistant { content: Option<String>, tool_calls: Option<Vec<ToolCall>> },
    Tool { tool_call_id: String, content: String },
}

pub enum MessageView {
    User { content: Seq<char> },
    Assistant { content: Option<Seq<char>>, tool_calls: Option<Seq<ToolCallView>> },
    Tool { tool_call_id: Seq<char>, content: Seq<char> },
}

impl View for Message {
    type V = MessageView;

    open spec fn view(&self) -> MessageView {
        match self {
            Message::User { content } => MessageView::User { content: content@ },
            Message::Assistant { content, tool_calls } => MessageView::Assistant {
                content: match content {
                    Option::Some(c) => Option::Some(c@),
                    Option::None => Option::None,
                },
                tool_calls: match tool_calls {
                    Option::Some(cs) => Option::Some(seq_of_views(cs@)),
                    Option::None => Option::None,
                },
            },
            Message::Tool { tool_call_id, content } => MessageView::Tool {
                tool_call_id: tool_call_id@,
                content: content@,
            },
        }
    }
}

/// What the caller consuming a send sees: content as it streams, each tool
/// invocation once it has been executed, and a terminal transport error.
pub enum CallerEvent {
    Content(String),
    ToolInvocation { name: String, json: String, result: String },
    Error(String),
}

pub enum CallerEventView {
    Content(Seq<char>),
    ToolInvocation { name: Seq<char>, json: Seq<char>, result: Seq<char> },
    Error(Seq<char>),
}

impl View for CallerEvent {
    type V = CallerEventView;

    open spec fn view(&self) -> CallerEventView {
        match self {
            CallerEvent::Content(s) => CallerEventView::Content(s@),
            CallerEvent::ToolInvocation { name, json, result } => CallerEventView::ToolInvocation {
                name: name@,
                json: json@,
                result: result@,
            },
            CallerEvent::Error(s) => CallerEventView::Error(s@),
        }
    }
}

/// What the embedding loop does after a committed round: request another
/// completion, or return control to the caller.
#[derive(Debug, PartialEq, Eq, Structural)]
pub enum NextAction {
    Request,
    Idle,
}

// ---------------------------------------------------------------------------
// What one round's accumulated parts mean
// ---------------------------------------------------------------------------

/// The completed calls among a round's parts, in emission order.
pub open spec fn calls_of(parts: Seq<PartView>) -> Seq<ToolCallView>
    decreases parts.len(),
{
    if parts.len() == 0 {
        Seq::empty()
    } else {
        (match parts[0] {
            PartView::ToolCall(c) => seq![c],
            PartView::Content(_) => Seq::empty(),
        }) + calls_of(parts.drop_first())
    }
}

/// The concatenation of a round's content fragments, in emission order.
pub open spec fn content_of(parts: Seq<PartView>) -> Seq<char>
    decreases parts.len(),
{
    if parts.len() == 0 {
        Seq::empty()
    } else {
        (match parts[0] {
            PartView::Content(t) => t,
            PartView::ToolCall(_) => Seq::empty(),
        }) + content_of(parts.drop_first())
    }
}

/// The content events a round relays to the caller, in emission order.
pub open spec fn content_events(parts: Seq<PartView>) -> Seq<CallerEventView>
    decreases parts.len(),
{
    if parts.len() == 0 {
        Seq::empty()
    } else {
        (match parts[0] {
            PartView::Content(t) => seq![CallerEventView::Content(t)],
            PartView::ToolCall(_) => Seq::empty(),
        }) + content_events(parts.drop_first())
    }
}

/// Extending the parts by one extends calls, content and content events at
/// the end.
pub proof fn lemma_parts_snoc(parts: Seq<PartView>, p: PartView)
    ensures
        calls_of(parts.push(p)) == calls_of(parts) + (match p {
            PartView::ToolCall(c) => seq![c],
            PartView::Content(_) => Seq::empty(),
        }),
        content_of(parts.push(p)) == content_of(parts) + (match p {
            PartView::Content(t) => t,
            PartView::ToolCall(_) => Seq::empty(),
        }),
        content_events(parts.push(p)) == content_events(parts) + (match p {
            PartView::Content(t) => seq![CallerEventView::Content(t)],
            PartView::ToolCall(_) => Seq::empty(),
        }),
    decreases parts.len(),
{
    if parts.len() == 0 {
        assert(parts.push(p)[0] == p);
        assert(parts.push(p).drop_first() =~= Seq::<PartView>::empty());
        assert(calls_of(Seq::<PartView>::empty()) == Seq::<ToolCallView>::empty());
        assert(content_of(Seq::<PartView>::empty()) == Seq::<char>::empty());
        assert(content_events(Seq::<PartView>::empty()) == Seq::<CallerEventView>::empty());
        assert(calls_of(parts.push(p)) =~= calls_of(parts) + (match p {
            PartView::ToolCall(c) => seq![c],
            PartView::Content(_) => Seq::<ToolCallView>::empty(),
        }));
        assert(content_of(parts.push(p)) =~= content_of(parts) + (match p {
            PartView::Content(t) => t,
            PartView::ToolCall(_) => Seq::<char>::empty(),
        }));
        assert(content_events(parts.push(p)) =~= content_events(parts) + (match p {
            PartView::Content(t) => seq![CallerEventView::Content(t)],
            PartView::ToolCall(_) => Seq::<CallerEventView>::empty(),
        }));
    } else {
        assert(parts.push(p)[0] == parts[0]);
        assert(parts.push(p).drop_first() =~= parts.drop_first().push(p));
        lemma_parts_snoc(parts.drop_first(), p);
        assert(calls_of(parts.push(p)) =~= calls_of(parts) + (match p {
            PartView::ToolCall(c) => seq![c],
            PartView::Content(_) => Seq::<ToolCallView>::empty(),
        }));
        assert(content_of(parts.push(p)) =~= content_of(parts) + (match p {
            PartView::Content(t) => t,
            PartView::ToolCall(_) => Seq::<char>::empty(),
        }));
        assert(content_events(parts.push(p)) =~= content_events(parts) + (match p {
            PartView::Content(t) => seq![CallerEventView::Content(t)],
            PartView::ToolCall(_) => Seq::<CallerEventView>::empty(),
        }));
    }
}

/// The assistant message a round commits: the concatenated content if any
/// was produced, and the buffered calls if any occurred.
pub open spec fn assistant_message(parts: Seq<PartView>) -> MessageView {
    MessageView::Assistant {
        content: if content_of(parts).len() == 0 {
            Option::None
        } else {
            Option::Some(content_of(parts))
        },
        tool_calls: if calls_of(parts).len() == 0 {
            Option::None
        } else {
            Option::Some(calls_of(parts))
        },
    }
}

/// An assistant message carries content or at least one tool call, never
/// neither.
pub open spec fn assistant_wf(m: MessageView) -> bool {
    m matches MessageView::Assistant { content, tool_calls } ==> (content is Some || (
    tool_calls matches Option::Some(cs) && cs.len() > 0))
}

/// A round that produced any event — a content fragment or a completed
/// call — commits an assistant message that carries content or calls.
pub proof fn lemma_round_assistant_wf(parts: Seq<PartView>)
    requires
        content_of(parts).len() > 0 || calls_of(parts).len() > 0,
    ensures
        assistant_wf(assistant_message(parts)),
{
}

/// The fixed reply reported for a call whose tool is not registered.
pub open spec fn spec_not_found_reply() -> Seq<char> {
    "tool not in toolset"@
}

/// What the reply to one buffered call may be. A call on an unregistered
/// name always reports the fixed not-found text. On a registered name the
/// reply is the registered tool's own — the fixed bad-arguments text when
/// its decoder rejects the argument text, the executor's result text
/// otherwise — and the orchestrator does not constrain either.
pub open spec fn dispatch_reply_ok<T: Tool>(
    ts: ToolSet<T>,
    c: ToolCallView,
    reply: Seq<char>,
) -> bool {
    if !ts.spec_has(c.name) {
        reply == spec_not_found_reply()
    } else {
        true
    }
}

// ---------------------------------------------------------------------------
// The orchestrator
// ---------------------------------------------------------------------------

/// Owns the conversation and drives repeated request/stream/execute rounds,
/// at most `max_rounds` of them per send. The history is the single source
/// of truth resent to the model each round; nothing outside the
/// orchestrator mutates it.
pub struct Orchestrator<T> {
    toolset: ToolSet<T>,
    messages: Vec<Message>,
    max_rounds: u32,
    rounds_used: u32,
}

impl<T> Orchestrator<T> {
    #[verifier::type_invariant]
    spec fn inv(self) -> bool {
        self.rounds_used <= self.max_rounds
    }

    /// The conversation history so far, oldest first.
    pub closed spec fn spec_messages(&self) -> Seq<MessageView> {
        seq_of_views(self.messages@)
    }

    /// The registry tool calls are dispatched against.
    pub closed spec fn spec_toolset(&self) -> ToolSet<T> {
        self.toolset
    }

    /// The most rounds one send may commit.
    pub closed spec fn spec_max_rounds(&self) -> u32 {
        self.max_rounds
    }

    /// How many rounds the current send has committed.
    pub closed spec fn spec_rounds_used(&self) -> u32 {
        self.rounds_used
    }

    /// A fresh orchestrator with an empty conversation.
    pub fn new(toolset: ToolSet<T>, max_rounds: u32) -> (r: Self)
        ensures
            r.spec_messages() == Seq::<MessageView>::empty(),
            r.spec_toolset() == toolset,
            r.spec_max_rounds() == max_rounds,
            r.spec_rounds_used() == 0,
    {
        let r = Orchestrator { toolset, messages: Vec::new(), max_rounds, rounds_used: 0 };
        proof {
            assert(r.spec_messages() =~= Seq::<MessageView>::empty());
        }
        r
    }

    /// The conversation history, for the embedding loop to resend to the
    /// model each round.
    pub fn history(&self) -> (r: &Vec<Message>)
        ensures
            seq_of_views(r@) == self.spec_messages(),
    {
        &self.messages
    }

    /// The registered schemas, in registration order, for the embedding
    /// loop to advertise to the model with each request.
    pub fn catalogue(&self) -> (r: Vec<&SchemaNode>)
        ensures
            r@.len() == self.spec_toolset().spec_schemas().len(),
            forall|i: int|
                0 <= i < r@.len() ==> #[trigger] r@[i]@ == self.spec_toolset().spec_schemas()[i],
    {
        self.toolset.catalogue()
    }

    /// Whether another round may still be committed for the current send.
    pub fn rounds_left(&self) -> (r: bool)
        ensures
            r == (self.spec_rounds_used() < self.spec_max_rounds()),
    {
        self.rounds_used < self.max_rounds
    }

    /// Opens a send: appends the caller's user message and resets the
    /// round count. The conversation grows by exactly this one message.
    pub fn send_message(&mut self, text: String)
        ensures
            final(self).spec_messages() == old(self).spec_messages().push(
                MessageView::User { content: text@ },
            ),
            final(self).spec_toolset() == old(self).spec_toolset(),
            final(self).spec_max_rounds() == old(self).spec_max_rounds(),
            final(self).spec_rounds_used() == 0,
    {
        proof {
            use_type_invariant(&*self);
        }
        self.rounds_used = 0;
        let ghost oldmsgs = self.messages@;
        let mut msgs: Vec<Message> = Vec::new();
        core::mem::swap(&mut self.messages, &mut msgs);
        msgs.push(Message::User { content: text });
        core::mem::swap(&mut self.messages, &mut msgs);
        proof {
            assert(final(self).spec_messages() =~= seq_of_views(oldmsgs).push(
                MessageView::User { content: text@ },
            ));
        }
    }
}

impl<T: Tool> Orchestrator<T> {
    /// Commits one round from its accumulated parts: relays the round's
    /// content, executes every buffered call in emission order against the
    /// registry, appends the assistant message and one tool-result message
    /// per call as one batch, and decides whether the send loops back for
    /// another request or returns to idle. Beyond the round bound nothing
    /// is committed.
    pub fn commit_round(&mut self, context: T::Context, parts: Vec<StreamPart>) -> (r: (
        Vec<CallerEvent>,
        NextAction,
    )) where T::Context: Clone
        ensures
            commit_round_ensures(*old(self), *final(self), seq_of_views(parts@), r.0@, r.1),
    {
        proof {
            use_type_invariant(&*self);
        }
        if self.rounds_used >= self.max_rounds {
            return (Vec::new(), NextAction::Idle);
        }
        let ghost pv = seq_of_views(parts@);
        let n = parts.len();
        let mut events: Vec<CallerEvent> = Vec::new();
        let mut response = String::new();
        let mut calls: Vec<ToolCall> = Vec::new();
        let mut i: usize = 0;
        proof {
            assert(pv.take(0) =~= Seq::<PartView>::empty());
            assert(seq_of_views(events@) =~= content_events(pv.take(0)));
            assert(seq_of_views(calls@) =~= calls_of(pv.take(0)));
            assert(response@ =~= content_of(pv.take(0)));
        }
        while i < n
            invariant
                n == parts.len(),
                pv == seq_of_views(parts@),
                0 <= i <= n,
                response@ == content_of(pv.take(i as int)),
                seq_of_views(calls@) == calls_of(pv.take(i as int)),
                seq_of_views(events@) == content_events(pv.take(i as int)),
            decreases n - i,
        {
            proof {
                assert(pv.take(i + 1) =~= pv.take(i as int).push(pv[i as int]));
                lemma_parts_snoc(pv.take(i as int), pv[i as int]);
                assert(parts@[i as int]@ == pv[i as int]);
            }
            match &parts[i] {
                StreamPart::Content(text) => {
                    response.append(text.as_str());
                    let ghost evs0 = events@;
                    let ev = CallerEvent::Content(text.clone());
                    let ghost ev0 = ev;
                    events.push(ev);
                    proof {
                        assert(seq_of_views(evs0.push(ev0)) =~= seq_of_views(evs0).push(ev0@));
                        assert(seq_of_views(events@) =~= content_events(pv.take(i + 1)));
                        assert(seq_of_views(calls@) =~= calls_of(pv.take(i + 1)));
                    }
                },
                StreamPart::ToolCall(c) => {
                    let ghost cs0 = calls@;
                    let copy = ToolCall {
                        id: c.id.clone(),
                        name: c.name.clone(),
                        json: c.json.clone(),
                    };
                    let ghost copy0 = copy;
                    calls.push(copy);
                    proof {
                        assert(seq_of_views(cs0.push(copy0)) =~= seq_of_views(cs0).push(copy0@));
                        assert(seq_of_views(calls@) =~= calls_of(pv.take(i + 1)));
                        assert(seq_of_views(events@) =~= content_events(pv.take(i + 1)));
                        assert(response@ =~= content_of(pv.take(i + 1)));
                    }
                },
            }
            i += 1;
        }
        proof {
            assert(pv.take(n as int) =~= pv);
        }
        let ghost cvs = calls_of(pv);
        let ghost ce_len = content_events(pv).len();
        // execute the buffered calls, in the order their events were emitted
        let n_calls = calls.len();
        let mut tool_msgs: Vec<Message> = Vec::new();
        let mut j: usize = 0;
        while j < n_calls
            invariant
                n_calls == calls.len(),
                seq_of_views(calls@) == cvs,
                cvs == calls_of(pv),
                ce_len == content_events(pv).len(),
                self == old(self),
                old(self).rounds_used < old(self).max_rounds,
                0 <= j <= n_calls,
                seq_of_views(events@).len() == ce_len + j,
                forall|k: int|
                    0 <= k < ce_len ==> seq_of_views(events@)[k] == content_events(pv)[k],
                tool_msgs@.len() == j,
                forall|k: int|
                    0 <= k < j ==> invocation_ok(
                        old(self).toolset,
                        cvs[k],
                        seq_of_views(events@)[ce_len + k],
                        tool_msgs@[k]@,
                    ),
            decreases n_calls - j,
        {
            let call = &calls[j];
            proof {
                assert(call@ == cvs[j as int]);
            }
            let reply = match self.toolset.try_tool_call(
                context.clone(),
                call.name.as_str(),
                call.json.as_str(),
            ) {
                Ok(text) => text,
                Err(ToolCallError::NotFound(_)) => "tool not in toolset".to_string(),
                Err(ToolCallError::Deserialization(_)) => {
                    "error deserializing tool call (possible hallucination)".to_string()
                },
            };
            let ghost evs0 = events@;
            let ev = CallerEvent::ToolInvocation {
                name: call.name.clone(),
                json: call.json.clone(),
                result: reply.clone(),
            };
            let ghost ev0 = ev;
            events.push(ev);
            let ghost tms0 = tool_msgs@;
            let tm = Message::Tool { tool_call_id: call.id.clone(), content: reply };
            let ghost tm0 = tm;
            tool_msgs.push(tm);
            proof {
                assert(events@ == evs0.push(ev0));
                assert(tool_msgs@ == tms0.push(tm0));
                assert(seq_of_views(evs0.push(ev0)) =~= seq_of_views(evs0).push(ev0@));
                assert(invocation_ok(old(self).toolset, cvs[j as int], ev0@, tm0@));
            }
            j += 1;
        }
        // build the round's messages and append them as one batch
        let had_calls = n_calls > 0;
        let assistant = Message::Assistant {
            content: if response.as_str().is_empty() {
                Option::None
            } else {
                Option::Some(response)
            },
            tool_calls: if had_calls {
                Option::Some(calls)
            } else {
                Option::None
            },
        };
        proof {
            assert(assistant@ == assistant_message(pv));
        }
        let ghost oldmsgs = self.messages@;
        let ghost n_tool_msgs = tool_msgs@.len();
        let ghost tool_msgs_snapshot = tool_msgs@;
        let mut msgs: Vec<Message> = Vec::new();
        core::mem::swap(&mut self.messages, &mut msgs);
        msgs.push(assistant);
        msgs.append(&mut tool_msgs);
        core::mem::swap(&mut self.messages, &mut msgs);
        self.rounds_used = self.rounds_used + 1;
        let next = if had_calls && self.rounds_used < self.max_rounds {
            NextAction::Request
        } else {
            NextAction::Idle
        };
        proof {
            assert(self.messages@ == oldmsgs.push(assistant) + tool_msgs_snapshot);
            assert(seq_of_views(self.messages@) =~= seq_of_views(oldmsgs).push(assistant@)
                + seq_of_views(tool_msgs_snapshot));
            assert forall|k: int| 0 <= k < n_tool_msgs implies seq_of_views(self.messages@)[
                oldmsgs.len() + 1 + k
            ] == tool_msgs_snapshot[k]@ by {
                assert(seq_of_views(tool_msgs_snapshot)[k] == tool_msgs_snapshot[k]@);
            }
        }
        (events, next)
    }
}

/// One executed invocation, as the caller's event and the committed
/// tool-result message report it: both carry the call's own name, argument
/// text and id, and the reply obeys the dispatch rules.
pub open spec fn invocation_ok<T: Tool>(
    ts: ToolSet<T>,
    c: ToolCallView,
    ev: CallerEventView,
    msg: MessageView,
) -> bool {
    &&& ev == (CallerEventView::ToolInvocation {
        name: c.name,
        json: c.json,
        result: reply_of(ev),
    })
    &&& msg == (MessageView::Tool { tool_call_id: c.id, content: reply_of(ev) })
    &&& dispatch_reply_ok(ts, c, reply_of(ev))
}

/// The reply an invocation event carries; empty for other events.
pub open spec fn reply_of(ev: CallerEventView) -> Seq<char> {
    match ev {
        CallerEventView::ToolInvocation { result, .. } => result,
        _ => Seq::empty(),
    }
}

/// One round's worth of provider output: the deltas that arrived and,
/// where the transport failed, the terminal error that ended the round.
pub struct RoundResponse {
    pub deltas: Vec<Delta>,
    pub error: Option<String>,
}

pub struct RoundResponseView {
    pub deltas: Seq<DeltaView>,
    pub error: Option<Seq<char>>,
}

impl View for RoundResponse {
    type V = RoundResponseView;

    open spec fn view(&self) -> RoundResponseView {
        RoundResponseView {
            deltas: seq_of_views(self.deltas@),
            error: match self.error {
                Option::Some(e) => Option::Some(e@),
                Option::None => Option::None,
            },
        }
    }
}

/// What one send hands back: every event the caller saw, and how many
/// rounds were committed.
pub struct SendOutcome {
    pub events: Vec<CallerEvent>,
    pub rounds: u32,
}

/// The parts one round's deltas accumulate to, from a clean accumulator.
pub open spec fn round_parts(d: Seq<DeltaView>) -> Seq<PartView> {
    run_parts(Seq::<FragView>::empty(), d)
}

/// Whether a round's response requests any tool calls.
pub open spec fn round_has_calls(d: Seq<DeltaView>) -> bool {
    calls_of(round_parts(d)).len() > 0
}

/// How many rounds one send commits, given the provider's per-round
/// responses: rounds are committed one by one until a round fails in
/// transport, requests no further tool calls, the responses run out, or
/// the round bound is reached.
pub open spec fn spec_rounds_taken(rs: Seq<RoundResponseView>, bound: int) -> int
    decreases rs.len(),
{
    if bound <= 0 || rs.len() == 0 {
        0
    } else if rs[0].error is Some {
        0
    } else if !round_has_calls(rs[0].deltas) {
        1
    } else {
        1 + spec_rounds_taken(rs.drop_first(), bound - 1)
    }
}

/// How many messages one send appends beyond its user message: one
/// assistant message plus one tool-result message per buffered call, for
/// each committed round.
pub open spec fn spec_messages_added(rs: Seq<RoundResponseView>, bound: int) -> int
    decreases rs.len(),
{
    if bound <= 0 || rs.len() == 0 {
        0
    } else if rs[0].error is Some {
        0
    } else {
        let added = 1 + calls_of(round_parts(rs[0].deltas)).len() as int;
        if !round_has_calls(rs[0].deltas) {
            added
        } else {
            added + spec_messages_added(rs.drop_first(), bound - 1)
        }
    }
}

impl<T: Tool> Orchestrator<T> {
    /// Runs one whole send against pre-collected provider responses, one
    /// per round: appends the user message, then accumulates and commits
    /// round after round until a round requests no further tool calls, the
    /// transport fails, the responses run out, or the round bound is
    /// reached. The bound is a stop condition, not an error: the
    /// conversation keeps its last committed state either way.
    pub fn run_send(
        &mut self,
        context: T::Context,
        text: String,
        responses: Vec<RoundResponse>,
    ) -> (out: SendOutcome) where T::Context: Clone
        ensures
            out.rounds <= old(self).spec_max_rounds(),
            out.rounds == spec_rounds_taken(
                seq_of_views(responses@),
                old(self).spec_max_rounds() as int,
            ),
            (responses@.len() > 0 && responses@[0]@.error is None && !round_has_calls(
                responses@[0]@.deltas,
            ) && old(self).spec_max_rounds() > 0) ==> out.rounds == 1,
            final(self).spec_messages().len() == old(self).spec_messages().len() + 1
                + spec_messages_added(
                seq_of_views(responses@),
                old(self).spec_max_rounds() as int,
            ),
            forall|k: int|
                0 <= k < old(self).spec_messages().len() ==> final(self).spec_messages()[k] == old(
                    self,
                ).spec_messages()[k],
            final(self).spec_messages()[old(self).spec_messages().len() as int]
                == (MessageView::User { content: text@ }),
            final(self).spec_toolset() == old(self).spec_toolset(),
            final(self).spec_max_rounds() == old(self).spec_max_rounds(),
            final(self).spec_rounds_used() == out.rounds,
    {
        let ghost rv = seq_of_views(responses@);
        let ghost bound = old(self).spec_max_rounds() as int;
        let ghost old_msgs = self.spec_messages();
        let ghost old_ts = self.spec_toolset();
        self.send_message(text);
        let ghost base = self.spec_messages();
        let mut events: Vec<CallerEvent> = Vec::new();
        let mut rounds: u32 = 0;
        let mut done = false;
        let n = responses.len();
        let mut i: usize = 0;
        proof {
            assert(rv.skip(0) =~= rv);
        }
        while i < n && !done
            invariant
                n == responses.len(),
                rv == seq_of_views(responses@),
                bound == self.spec_max_rounds() as int,
                0 <= i <= n,
                rounds <= i,
                rounds <= bound,
                self.spec_toolset() == old_ts,
                self.spec_rounds_used() == rounds,
                self.spec_messages().len() >= base.len(),
                forall|k: int|
                    0 <= k < base.len() ==> self.spec_messages()[k] == base[k],
                base == old_msgs.push(MessageView::User { content: text@ }),
                !done ==> rounds == i && spec_rounds_taken(rv, bound) == i + spec_rounds_taken(
                    rv.skip(i as int),
                    bound - i,
                ),
                done ==> spec_rounds_taken(rv, bound) == rounds,
                !done ==> spec_messages_added(rv, bound) == (self.spec_messages().len()
                    - base.len()) + spec_messages_added(rv.skip(i as int), bound - i),
                done ==> spec_messages_added(rv, bound) == self.spec_messages().len()
                    - base.len(),
            decreases n - i + (if done {
                0int
            } else {
                1int
            }),
        {
            proof {
                assert(responses@[i as int]@ == rv[i as int]);
            }
            if !self.rounds_left() {
                proof {
                    assert(bound - i <= 0);
                    assert(spec_rounds_taken(rv.skip(i as int), bound - i) == 0);
                    assert(spec_messages_added(rv.skip(i as int), bound - i) == 0);
                }
                done = true;
            } else {
                let resp = &responses[i];
                let parts = accumulate(&resp.deltas);
                proof {
                    assert(rv.skip(i as int)[0] == rv[i as int]);
                    assert(seq_of_views(parts@) == round_parts(rv[i as int].deltas));
                }
                match &resp.error {
                    Option::Some(err) => {
                        // the round is aborted: the caller has already seen its
                        // content; the buffered calls are discarded, nothing is
                        // committed, and the terminal error ends the send
                        push_content_events(&mut events, &parts);
                        events.push(CallerEvent::Error(err.clone()));
                        proof {
                            assert(rv[i as int].error is Some);
                            assert(spec_rounds_taken(rv.skip(i as int), bound - i) == 0);
                            assert(spec_messages_added(rv.skip(i as int), bound - i) == 0);
                        }
                        done = true;
                    },
                    Option::None => {
                        let (mut evs, next) = self.commit_round(context.clone(), parts);
                        events.append(&mut evs);
                        rounds = rounds + 1;
                        proof {
                            assert(rv[i as int].error is None);
                            assert(rv.skip(i as int).drop_first() =~= rv.skip(i + 1));
                            let calls = calls_of(round_parts(rv[i as int].deltas));
                            if calls.len() == 0 {
                                assert(!round_has_calls(rv[i as int].deltas));
                                assert(spec_rounds_taken(rv.skip(i as int), bound - i) == 1);
                                assert(spec_messages_added(rv.skip(i as int), bound - i) == 1
                                    + calls.len());
                            } else {
                                assert(round_has_calls(rv[i as int].deltas));
                                assert(spec_rounds_taken(rv.skip(i as int), bound - i) == 1
                                    + spec_rounds_taken(rv.skip(i + 1), bound - i - 1));
                                assert(spec_messages_added(rv.skip(i as int), bound - i) == 1
                                    + calls.len() + spec_messages_added(
                                    rv.skip(i + 1),
                                    bound - i - 1,
                                ));
                            }
                        }
                        match next {
                            NextAction::Idle => {
                                proof {
                                    let calls = calls_of(round_parts(rv[i as int].deltas));
                                    if calls.len() > 0 {
                                        assert(self.spec_rounds_used() == bound);
                                        assert(spec_rounds_taken(rv.skip(i + 1), bound - i - 1)
                                            == 0);
                                        assert(spec_messages_added(rv.skip(i + 1), bound - i - 1)
                                            == 0);
                                    }
                                }
                                done = true;
                            },
                            NextAction::Request => {},
                        }
                    },
                }
                i += 1;
            }
        }
        proof {
            assert(old_msgs == old(self).spec_messages());
            assert(base.len() == old_msgs.len() + 1);
            assert(self.spec_messages().len() >= old_msgs.len() + 1);
            assert(self.spec_messages().len() >= old(self).spec_messages().len() + 1);
            assert forall|k: int| 0 <= k < old(self).spec_messages().len() implies self
                .spec_messages()[k] == old(self).spec_messages()[k] by {
                assert(self.spec_messages()[k] == base[k]);
                assert(base[k] == old_msgs[k]);
            }
            assert(base[old_msgs.len() as int] == (MessageView::User { content: text@ }));
            assert(self.spec_messages()[old_msgs.len() as int] == (MessageView::User {
                content: text@,
            }));
            if !done {
                assert(rv.skip(n as int) =~= Seq::<RoundResponseView>::empty());
                assert(spec_rounds_taken(rv.skip(n as int), bound - n) == 0);
                assert(spec_messages_added(rv.skip(n as int), bound - n) == 0);
            }
            if rv.len() > 0 && rv[0].error is None && !round_has_calls(rv[0].deltas) && bound
                > 0 {
                assert(spec_rounds_taken(rv, bound) == 1);
            }
        }
        SendOutcome { events, rounds }
    }
}

/// Relays the content events of an aborted round: the caller saw these
/// before the transport failed, so they stand in the send's event list.
fn push_content_events(events: &mut Vec<CallerEvent>, parts: &Vec<StreamPart>)
    ensures
        seq_of_views(final(events)@) == seq_of_views(old(events)@) + content_events(
            seq_of_views(parts@),
        ),
{
    let ghost pv = seq_of_views(parts@);
    let ghost base = events@;
    let n = parts.len();
    let mut i: usize = 0;
    proof {
        assert(pv.take(0) =~= Seq::<PartView>::empty());
        assert(seq_of_views(events@) =~= seq_of_views(base) + content_events(pv.take(0)));
    }
    while i < n
        invariant
            n == parts.len(),
            pv == seq_of_views(parts@),
            0 <= i <= n,
            seq_of_views(events@) == seq_of_views(base) + content_events(pv.take(i as int)),
        decreases n - i,
    {
        proof {
            assert(pv.take(i + 1) =~= pv.take(i as int).push(pv[i as int]));
            lemma_parts_snoc(pv.take(i as int), pv[i as int]);
            assert(parts@[i as int]@ == pv[i as int]);
        }
        match &parts[i] {
            StreamPart::Content(text) => {
                let ghost evs0 = events@;
                let ev = CallerEvent::Content(text.clone());
                let ghost ev0 = ev;
                events.push(ev);
                proof {
                    assert(seq_of_views(evs0.push(ev0)) =~= seq_of_views(evs0).push(ev0@));
                    assert(seq_of_views(events@) =~= seq_of_views(base) + content_events(
                        pv.take(i + 1),
                    ));
                }
            },
            StreamPart::ToolCall(_) => {
                proof {
                    assert(seq_of_views(events@) =~= seq_of_views(base) + content_events(
                        pv.take(i + 1),
                    ));
                }
            },
        }
        i += 1;
    }
    proof {
        assert(pv.take(n as int) =~= pv);
    }
}

/// Everything one committed round promises: within the round bound, the
/// caller sees the round's content events followed by one invocation event
/// per buffered call in emission order, and the conversation grows, as one
/// batch, by the assistant message and one tool-result message per call;
/// the send loops back exactly when calls occurred and the bound is not
/// yet reached. Beyond the bound nothing changes and the send is over.
pub open spec fn commit_round_ensures<T: Tool>(
    pre: Orchestrator<T>,
    post: Orchestrator<T>,
    pv: Seq<PartView>,
    events: Seq<CallerEvent>,
    next: NextAction,
) -> bool {
    &&& post.spec_toolset() == pre.spec_toolset()
    &&& post.spec_max_rounds() == pre.spec_max_rounds()
    &&& if pre.spec_rounds_used() < pre.spec_max_rounds() {
        let calls = calls_of(pv);
        let ce = content_events(pv);
        let msgs = pre.spec_messages();
        &&& post.spec_rounds_used() == pre.spec_rounds_used() + 1
        &&& seq_of_views(events).len() == ce.len() + calls.len()
        &&& (forall|k: int| 0 <= k < ce.len() ==> seq_of_views(events)[k] == ce[k])
        &&& post.spec_messages().len() == msgs.len() + 1 + calls.len()
        &&& (forall|k: int| 0 <= k < msgs.len() ==> post.spec_messages()[k] == msgs[k])
        &&& post.spec_messages()[msgs.len() as int] == assistant_message(pv)
        &&& (forall|k: int|
            0 <= k < calls.len() ==> invocation_ok(
                pre.spec_toolset(),
                calls[k],
                seq_of_views(events)[ce.len() + k],
                post.spec_messages()[msgs.len() + 1 + k],
            ))
        &&& next == (if calls.len() > 0 && post.spec_rounds_used() < pre.spec_max_rounds() {
            NextAction::Request
        } else {
            NextAction::Idle
        })
    } else {
        &&& post == pre
        &&& events.len() == 0
        &&& next == NextAction::Idle
    }
}

} // verus!
