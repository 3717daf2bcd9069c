//! Data model of a streamed model response and the accumulator that
//! reassembles complete tool calls from incremental delta chunks.

use vstd::prelude::*;

verus! {

/// Why the provider reported the end of a response round.
pub enum FinishKind {
    /// The model finished a plain text answer.
    Stop,
    /// The model finished emitting tool-call pieces for this round.
    ToolCalls,
    /// Any other finish signal; treated like `Stop`.
    Other,
}

/// One incremental piece of a tool call, keyed by a stream-assigned index.
pub struct ToolPiece {
    pub index: u32,
    pub id: Option<String>,
    pub name: Option<String>,
    pub arguments: Option<String>,
}

/// One streamed chunk of a model response. A chunk with no choices is
/// represented as a `Delta` with no content, no pieces and no finish signal.
pub struct Delta {
    pub content: Option<String>,
    pub tool_calls: Vec<ToolPiece>,
    pub finish: Option<FinishKind>,
}

/// A completed tool call, flushed from the accumulator once the provider
/// signals that tool-call generation for the round is done.
pub struct ToolCall {
    pub id: String,
    pub name: String,
    pub json: String,
}

/// An event produced by the accumulator: a content fragment, relayed in
/// upstream order, or a completed tool call.
pub enum StreamPart {
    Content(String),
    ToolCall(ToolCall),
}

/// The in-progress accumulation of one tool call's id, name and arguments.
pub struct ToolCallFragment {
    pub index: u32,
    pub id: String,
    pub name: String,
    pub json: String,
}

// ---------------------------------------------------------------------------
// Mathematical views
// ---------------------------------------------------------------------------

pub struct PieceView {
    pub index: u32,
    pub id: Option<Seq<char>>,
    pub name: Option<Seq<char>>,
    pub arguments: Option<Seq<char>>,
}

pub struct DeltaView {
    pub content: Option<Seq<char>>,
    pub tool_calls: Seq<PieceView>,
    pub finish: Option<FinishKind>,
}

pub struct ToolCallView {
    pub id: Seq<char>,
    pub name: Seq<char>,
    pub json: Seq<char>,
}

pub enum PartView {
    Content(Seq<char>),
    ToolCall(ToolCallView),
}

pub struct FragView {
    pub index: u32,
    pub id: Seq<char>,
    pub name: Seq<char>,
    pub json: Seq<char>,
}

pub open spec fn opt_view(o: Option<String>) -> Option<Seq<char>> {
    match o {
        Option::Some(s) => Option::Some(s@),
        Option::None => Option::None,
    }
}

impl View for ToolPiece {
    type V = PieceView;

    open spec fn view(&self) -> PieceView {
        PieceView {
            index: self.index,
            id: opt_view(self.id),
            name: opt_view(self.name),
            arguments: opt_view(self.arguments),
        }
    }
}

impl View for Delta {
    type V = DeltaView;

    open spec fn view(&self) -> DeltaView {
        DeltaView {
            content: opt_view(self.content),
            tool_calls: self.tool_calls@.map_values(|p: ToolPiece| p@),
            finish: self.finish,
        }
    }
}

impl View for ToolCall {
    type V = ToolCallView;

    open spec fn view(&self) -> ToolCallView {
        ToolCallView { id: self.id@, name: self.name@, json: self.json@ }
    }
}

impl View for StreamPart {
    type V = PartView;

    open spec fn view(&self) -> PartView {
        match self {
            StreamPart::Content(s) => PartView::Content(s@),
            StreamPart::ToolCall(c) => PartView::ToolCall(c@),
        }
    }
}

impl View for ToolCallFragment {
    type V = FragView;

    open spec fn view(&self) -> FragView {
        FragView { index: self.index, id: self.id@, name: self.name@, json: self.json@ }
    }
}

/// The view of a vector of viewable values, element by element.
pub open spec fn seq_of_views<T: View>(s: Seq<T>) -> Seq<T::V> {
    s.map_values(|x: T| x@)
}

// ---------------------------------------------------------------------------
// Specification of the accumulator's transition on one delta
// ---------------------------------------------------------------------------

/// The text a piece contributes to a fragment field: the piece's text if it
/// carries one, empty otherwise.
pub open spec fn piece_text(o: Option<Seq<char>>) -> Seq<char> {
    match o {
        Option::Some(s) => s,
        Option::None => Seq::empty(),
    }
}

/// Position of the fragment with the given stream index, or -1 if none holds it.
pub open spec fn frag_pos(s: Seq<FragView>, index: u32) -> int
    decreases s.len(),
{
    if s.len() == 0 {
        -1
    } else if s[0].index == index {
        0
    } else {
        let r = frag_pos(s.drop_first(), index);
        if r < 0 {
            -1
        } else {
            r + 1
        }
    }
}

/// Position at which a fragment with a fresh stream index is inserted so that
/// the fragments stay in ascending index order.
pub open spec fn insert_pos(s: Seq<FragView>, index: u32) -> int
    decreases s.len(),
{
    if s.len() == 0 {
        0
    } else if index < s[0].index {
        0
    } else {
        1 + insert_pos(s.drop_first(), index)
    }
}

/// A fragment just created for the given stream index: all fields empty.
pub open spec fn blank_frag(index: u32) -> FragView {
    FragView { index, id: Seq::empty(), name: Seq::empty(), json: Seq::empty() }
}

/// How one piece updates the fragment at its index: the id is set once, the
/// first non-empty value winning; name and argument text grow by
/// concatenation.
pub open spec fn merge_piece(f: FragView, p: PieceView) -> FragView {
    FragView {
        index: f.index,
        id: if f.id.len() == 0 {
            piece_text(p.id)
        } else {
            f.id
        },
        name: f.name + piece_text(p.name),
        json: f.json + piece_text(p.arguments),
    }
}

/// The fragment mapping after one piece: look up or create the fragment at
/// the piece's index, then merge the piece into it.
pub open spec fn apply_piece(s: Seq<FragView>, p: PieceView) -> Seq<FragView> {
    let i = frag_pos(s, p.index);
    if i >= 0 {
        s.update(i, merge_piece(s[i], p))
    } else {
        s.insert(insert_pos(s, p.index), merge_piece(blank_frag(p.index), p))
    }
}

/// The fragment mapping after a sequence of pieces, applied left to right.
pub open spec fn apply_pieces(s: Seq<FragView>, ps: Seq<PieceView>) -> Seq<FragView>
    decreases ps.len(),
{
    if ps.len() == 0 {
        s
    } else {
        apply_pieces(apply_piece(s, ps[0]), ps.drop_first())
    }
}

/// The completed call a fragment flushes to.
pub open spec fn call_of_frag(f: FragView) -> ToolCallView {
    ToolCallView { id: f.id, name: f.name, json: f.json }
}

/// The events a flush emits: one completed call per fragment, in the order
/// the fragments are held, which is ascending index order.
pub open spec fn flush_parts(s: Seq<FragView>) -> Seq<PartView> {
    s.map_values(|f: FragView| PartView::ToolCall(call_of_frag(f)))
}

/// The content event of a delta, if it carries content.
pub open spec fn content_part(c: Option<Seq<char>>) -> Seq<PartView> {
    match c {
        Option::Some(t) => seq![PartView::Content(t)],
        Option::None => Seq::empty(),
    }
}

/// The fragment mapping after one delta: pieces merged in; cleared when the
/// delta signals the end of tool-call generation for the round.
pub open spec fn step_frags(s: Seq<FragView>, d: DeltaView) -> Seq<FragView> {
    let s1 = apply_pieces(s, d.tool_calls);
    if d.finish == Option::Some(FinishKind::ToolCalls) {
        Seq::empty()
    } else {
        s1
    }
}

/// The events one delta emits: its content fragment first, then, if the delta
/// signals the end of tool-call generation, one completed call per held
/// fragment in ascending index order.
pub open spec fn step_parts(s: Seq<FragView>, d: DeltaView) -> Seq<PartView> {
    let s1 = apply_pieces(s, d.tool_calls);
    content_part(d.content) + if d.finish == Option::Some(FinishKind::ToolCalls) {
        flush_parts(s1)
    } else {
        Seq::empty()
    }
}

/// The fragment mapping after a whole sequence of deltas.
pub open spec fn run_frags(s: Seq<FragView>, ds: Seq<DeltaView>) -> Seq<FragView>
    decreases ds.len(),
{
    if ds.len() == 0 {
        s
    } else {
        run_frags(step_frags(s, ds[0]), ds.drop_first())
    }
}

/// All events a sequence of deltas emits, starting from the given fragments.
pub open spec fn run_parts(s: Seq<FragView>, ds: Seq<DeltaView>) -> Seq<PartView>
    decreases ds.len(),
{
    if ds.len() == 0 {
        Seq::empty()
    } else {
        step_parts(s, ds[0]) + run_parts(step_frags(s, ds[0]), ds.drop_first())
    }
}

/// Fragments stand in strictly ascending index order; in particular each
/// stream index is held by at most one fragment.
pub open spec fn frags_ordered(s: Seq<FragView>) -> bool {
    forall|i: int, j: int| 0 <= i < j < s.len() ==> s[i].index < s[j].index
}

// ---------------------------------------------------------------------------
// Lemmas about the transition functions
// ---------------------------------------------------------------------------

/// `frag_pos` finds the first fragment holding the index, or reports that
/// none does.
pub proof fn lemma_frag_pos_props(s: Seq<FragView>, index: u32)
    ensures
        ({
            let r = frag_pos(s, index);
            &&& (r == -1 ==> forall|k: int| 0 <= k < s.len() ==> s[k].index != index)
            &&& (r != -1 ==> 0 <= r < s.len() && s[r].index == index && (forall|k: int|
                0 <= k < r ==> s[k].index != index))
        }),
    decreases s.len(),
{
    if s.len() == 0 {
    } else if s[0].index == index {
    } else {
        lemma_frag_pos_props(s.drop_first(), index);
        let r = frag_pos(s.drop_first(), index);
        if r == -1 {
            assert forall|k: int| 0 <= k < s.len() implies s[k].index != index by {
                if k > 0 {
                    assert(s.drop_first()[k - 1].index != index);
                }
            }
        } else {
            assert(s[r + 1] == s.drop_first()[r]);
            assert forall|k: int| 0 <= k < r + 1 implies s[k].index != index by {
                if k > 0 {
                    assert(s.drop_first()[k - 1].index != index);
                }
            }
        }
    }
}

/// The position a loop finds by scanning for the first match is `frag_pos`.
pub proof fn lemma_frag_pos_found(s: Seq<FragView>, index: u32, i: int)
    requires
        0 <= i < s.len(),
        s[i].index == index,
        forall|k: int| 0 <= k < i ==> s[k].index != index,
    ensures
        frag_pos(s, index) == i,
    decreases s.len(),
{
    if i == 0 {
    } else {
        lemma_frag_pos_found(s.drop_first(), index, i - 1);
    }
}

/// When no fragment holds the index, `frag_pos` reports so.
pub proof fn lemma_frag_pos_absent(s: Seq<FragView>, index: u32)
    requires
        forall|k: int| 0 <= k < s.len() ==> s[k].index != index,
    ensures
        frag_pos(s, index) == -1,
    decreases s.len(),
{
    if s.len() == 0 {
    } else {
        lemma_frag_pos_absent(s.drop_first(), index);
    }
}

/// For ordered fragments without the index, `insert_pos` splits them into
/// those with smaller and those with larger indices.
pub proof fn lemma_insert_pos_props(s: Seq<FragView>, index: u32)
    requires
        frags_ordered(s),
        forall|k: int| 0 <= k < s.len() ==> s[k].index != index,
    ensures
        ({
            let p = insert_pos(s, index);
            &&& 0 <= p <= s.len()
            &&& (forall|k: int| 0 <= k < p ==> s[k].index < index)
            &&& (forall|k: int| p <= k < s.len() ==> s[k].index > index)
        }),
    decreases s.len(),
{
    if s.len() == 0 {
    } else if index < s[0].index {
        assert forall|k: int| 0 <= k < s.len() implies s[k].index > index by {
            if k > 0 {
                assert(s[0].index < s[k].index);
            }
        }
    } else {
        assert(s[0].index < index);
        lemma_insert_pos_props(s.drop_first(), index);
        let p = insert_pos(s, index);
        assert(p == 1 + insert_pos(s.drop_first(), index));
        assert forall|k: int| 0 <= k < p implies s[k].index < index by {
            if k > 0 {
                assert(s.drop_first()[k - 1].index < index);
            }
        }
        assert forall|k: int| p <= k < s.len() implies s[k].index > index by {
            assert(s.drop_first()[k - 1].index > index);
        }
    }
}

/// Applying a piece keeps the fragments ordered, updates the fragment at the
/// piece's index if one exists, and inserts a fresh one otherwise.
pub proof fn lemma_apply_piece_ordered(s: Seq<FragView>, p: PieceView)
    requires
        frags_ordered(s),
    ensures
        frags_ordered(apply_piece(s, p)),
{
    lemma_frag_pos_props(s, p.index);
    let i = frag_pos(s, p.index);
    if i >= 0 {
        let t = s.update(i, merge_piece(s[i], p));
        assert(forall|k: int| 0 <= k < s.len() ==> t[k].index == s[k].index);
    } else {
        lemma_insert_pos_props(s, p.index);
        let pos = insert_pos(s, p.index);
        let f = merge_piece(blank_frag(p.index), p);
        let t = s.insert(pos, f);
        assert(f.index == p.index);
        assert(forall|k: int| 0 <= k < pos ==> t[k] == s[k]);
        assert(t[pos as int] == f);
        assert(forall|k: int| pos < k < t.len() ==> t[k] == s[k - 1]);
        assert forall|a: int, b: int| 0 <= a < b < t.len() implies t[a].index < t[b].index by {
            if a < pos && b == pos {
                assert(s[a].index < p.index);
            } else if a == pos && b > pos {
                assert(s[b - 1].index > p.index);
            }
        }
    }
}

/// Applying the pieces one more piece at a time agrees with applying them all.
pub proof fn lemma_apply_pieces_snoc(s: Seq<FragView>, ps: Seq<PieceView>, p: PieceView)
    ensures
        apply_pieces(s, ps.push(p)) == apply_piece(apply_pieces(s, ps), p),
    decreases ps.len(),
{
    if ps.len() == 0 {
        assert(ps.push(p)[0] == p);
        assert(ps.push(p).drop_first() =~= Seq::<PieceView>::empty());
        assert(apply_pieces(s, ps.push(p)) == apply_pieces(
            apply_piece(s, p),
            Seq::<PieceView>::empty(),
        ));
        assert(apply_pieces(apply_piece(s, p), Seq::<PieceView>::empty()) == apply_piece(s, p));
    } else {
        assert(ps.push(p)[0] == ps[0]);
        assert(ps.push(p).drop_first() =~= ps.drop_first().push(p));
        lemma_apply_pieces_snoc(apply_piece(s, ps[0]), ps.drop_first(), p);
        assert(apply_pieces(s, ps.push(p)) == apply_pieces(
            apply_piece(s, ps[0]),
            ps.drop_first().push(p),
        ));
    }
}

// ---------------------------------------------------------------------------
// The executable accumulator
// ---------------------------------------------------------------------------

/// Consumes a response stream delta by delta and produces content events
/// immediately and completed tool calls once the provider signals that
/// tool-call generation for the round is finished.
pub struct StreamAccumulator {
    fragments: Vec<ToolCallFragment>,
}

impl View for StreamAccumulator {
    type V = Seq<FragView>;

    closed spec fn view(&self) -> Seq<FragView> {
        seq_of_views(self.fragments@)
    }
}

impl StreamAccumulator {
    #[verifier::type_invariant]
    spec fn wf(self) -> bool {
        frags_ordered(self@)
    }

    /// A fresh accumulator holding no fragments.
    pub fn new() -> (acc: Self)
        ensures
            acc@ =~= Seq::<FragView>::empty(),
    {
        StreamAccumulator { fragments: Vec::new() }
    }

    /// Merges one tool-call piece into the fragment at its index, creating
    /// the fragment if the index is fresh.
    fn apply_piece_exec(&mut self, piece: &ToolPiece)
        ensures
            final(self)@ == apply_piece(old(self)@, piece@),
    {
        proof {
            use_type_invariant(&*self);
            lemma_frag_pos_props(self@, piece.index);
            lemma_apply_piece_ordered(self@, piece@);
        }
        let ghost start = self@;
        let mut frags: Vec<ToolCallFragment> = Vec::new();
        core::mem::swap(&mut self.fragments, &mut frags);
        let n = frags.len();
        let mut j: usize = 0;
        while j < n && frags[j].index != piece.index
            invariant
                n == frags.len(),
                0 <= j <= n,
                seq_of_views(frags@) == start,
                forall|k: int| 0 <= k < j ==> start[k].index != piece.index,
            decreases n - j,
        {
            j += 1;
        }
        if j < n {
            proof {
                lemma_frag_pos_found(start, piece.index, j as int);
            }
            let merged = merge_piece_exec(&frags[j], piece);
            frags[j] = merged;
            proof {
                assert(seq_of_views(frags@) =~= apply_piece(start, piece@));
            }
        } else {
            proof {
                lemma_frag_pos_absent(start, piece.index);
                lemma_insert_pos_props(start, piece.index);
            }
            let blank = ToolCallFragment {
                index: piece.index,
                id: String::new(),
                name: String::new(),
                json: String::new(),
            };
            let merged = merge_piece_exec(&blank, piece);
            let mut pos: usize = 0;
            while pos < n && frags[pos].index < piece.index
                invariant
                    n == frags.len(),
                    0 <= pos <= n,
                    seq_of_views(frags@) == start,
                    forall|k: int| 0 <= k < pos ==> start[k].index < piece.index,
                decreases n - pos,
            {
                pos += 1;
            }
            proof {
                let sp = insert_pos(start, piece.index);
                if pos < n {
                    assert(start[pos as int].index > piece.index);
                }
                assert(sp == pos as int) by {
                    if sp < pos {
                        assert(start[sp].index > piece.index);
                        assert(start[sp].index < piece.index);
                    } else if sp > pos {
                        assert(start[pos as int].index < piece.index);
                        assert(start[pos as int].index > piece.index);
                    }
                }
            }
            frags.insert(pos, merged);
            proof {
                assert(seq_of_views(frags@) =~= apply_piece(start, piece@));
            }
        }
        core::mem::swap(&mut self.fragments, &mut frags);
    }

    /// Consumes one delta. Content is emitted immediately, in upstream
    /// order; tool-call pieces are merged into their fragments; when the
    /// delta signals the end of tool-call generation for the round, every
    /// held fragment is flushed as one completed call, in ascending index
    /// order, and the mapping is cleared for the next round.
    pub fn step(&mut self, delta: &Delta) -> (events: Vec<StreamPart>)
        ensures
            final(self)@ == step_frags(old(self)@, delta@),
            seq_of_views(events@) == step_parts(old(self)@, delta@),
    {
        let ghost start = self@;
        let ghost pieces = delta@.tool_calls;
        let mut events: Vec<StreamPart> = Vec::new();
        if let Option::Some(c) = &delta.content {
            events.push(StreamPart::Content(c.clone()));
        }
        proof {
            assert(seq_of_views(events@) =~= content_part(delta@.content));
        }
        let n = delta.tool_calls.len();
        let mut i: usize = 0;
        proof {
            assert(pieces.take(0) =~= Seq::<PieceView>::empty());
        }
        while i < n
            invariant
                n == delta.tool_calls.len(),
                pieces == delta@.tool_calls,
                0 <= i <= n,
                self@ == apply_pieces(start, pieces.take(i as int)),
                seq_of_views(events@) == content_part(delta@.content),
            decreases n - i,
        {
            proof {
                assert(pieces.take(i + 1) =~= pieces.take(i as int).push(pieces[i as int]));
                lemma_apply_pieces_snoc(start, pieces.take(i as int), pieces[i as int]);
                assert(delta.tool_calls@[i as int]@ == pieces[i as int]);
            }
            self.apply_piece_exec(&delta.tool_calls[i]);
            i += 1;
        }
        proof {
            assert(pieces.take(n as int) =~= pieces);
        }
        let ghost merged = apply_pieces(start, pieces);
        let flush = match &delta.finish {
            Option::Some(FinishKind::ToolCalls) => true,
            _ => false,
        };
        if flush {
            let m = self.fragments.len();
            let mut k: usize = 0;
            proof {
                assert(merged.take(0) =~= Seq::<FragView>::empty());
                assert(flush_parts(merged.take(0)) =~= Seq::<PartView>::empty());
                assert(seq_of_views(events@) =~= content_part(delta@.content) + flush_parts(
                    merged.take(0),
                ));
            }
            while k < m
                invariant
                    m == self.fragments.len(),
                    self@ == merged,
                    0 <= k <= m,
                    seq_of_views(events@) == content_part(delta@.content) + flush_parts(
                        merged.take(k as int),
                    ),
                decreases m - k,
            {
                let f = &self.fragments[k];
                proof {
                    assert(self@[k as int] == self.fragments@[k as int]@);
                    assert(f@ == merged[k as int]);
                }
                let part = StreamPart::ToolCall(
                    ToolCall { id: f.id.clone(), name: f.name.clone(), json: f.json.clone() },
                );
                let ghost p0 = part;
                let ghost evs0 = events@;
                events.push(part);
                proof {
                    assert(events@ == evs0.push(p0));
                    assert(p0@ == PartView::ToolCall(call_of_frag(merged[k as int])));
                    assert(seq_of_views(evs0.push(p0)) =~= seq_of_views(evs0).push(p0@));
                    assert(merged.take(k + 1) =~= merged.take(k as int).push(merged[k as int]));
                    assert(flush_parts(merged.take(k + 1)) =~= flush_parts(
                        merged.take(k as int),
                    ).push(PartView::ToolCall(call_of_frag(merged[k as int]))));
                    assert(seq_of_views(events@) =~= content_part(delta@.content) + flush_parts(
                        merged.take(k + 1),
                    ));
                }
                k += 1;
            }
            self.fragments = Vec::new();
            proof {
                assert(merged.take(m as int) =~= merged);
                assert(self@ =~= Seq::<FragView>::empty());
                assert(seq_of_views(events@) == step_parts(start, delta@));
            }
        } else {
            proof {
                assert(step_parts(start, delta@) =~= content_part(delta@.content));
            }
        }
        events
    }
}

/// Running one more delta agrees with stepping the result of the run so far.
pub proof fn lemma_run_snoc(s: Seq<FragView>, ds: Seq<DeltaView>, d: DeltaView)
    ensures
        run_frags(s, ds.push(d)) == step_frags(run_frags(s, ds), d),
        run_parts(s, ds.push(d)) == run_parts(s, ds) + step_parts(run_frags(s, ds), d),
    decreases ds.len(),
{
    if ds.len() == 0 {
        assert(ds.push(d)[0] == d);
        assert(ds.push(d).drop_first() =~= Seq::<DeltaView>::empty());
        assert(run_frags(s, ds.push(d)) == run_frags(step_frags(s, d), Seq::<DeltaView>::empty()));
        assert(run_parts(s, ds.push(d)) == step_parts(s, d) + run_parts(
            step_frags(s, d),
            Seq::<DeltaView>::empty(),
        ));
        assert(step_parts(s, d) + Seq::<PartView>::empty() =~= step_parts(s, d));
        assert(run_parts(s, ds) + step_parts(s, d) =~= step_parts(s, d));
    } else {
        assert(ds.push(d)[0] == ds[0]);
        assert(ds.push(d).drop_first() =~= ds.drop_first().push(d));
        lemma_run_snoc(step_frags(s, ds[0]), ds.drop_first(), d);
        assert(run_parts(s, ds.push(d)) == step_parts(s, ds[0]) + run_parts(
            step_frags(s, ds[0]),
            ds.drop_first().push(d),
        ));
        assert(step_parts(s, ds[0]) + (run_parts(step_frags(s, ds[0]), ds.drop_first())
            + step_parts(run_frags(step_frags(s, ds[0]), ds.drop_first()), d)) =~= (step_parts(
            s,
            ds[0],
        ) + run_parts(step_frags(s, ds[0]), ds.drop_first())) + step_parts(
            run_frags(step_frags(s, ds[0]), ds.drop_first()),
            d,
        ));
    }
}

/// Runs a whole delta sequence through a fresh accumulator and returns every
/// event it emits, in order: each delta's content first, then, at each
/// end-of-tool-calls signal, the completed calls of the round.
pub fn accumulate(deltas: &Vec<Delta>) -> (events: Vec<StreamPart>)
    ensures
        seq_of_views(events@) == run_parts(Seq::<FragView>::empty(), seq_of_views(deltas@)),
{
    let ghost ds = seq_of_views(deltas@);
    let mut acc = StreamAccumulator::new();
    let mut events: Vec<StreamPart> = Vec::new();
    let n = deltas.len();
    let mut i: usize = 0;
    proof {
        assert(ds.take(0) =~= Seq::<DeltaView>::empty());
        assert(seq_of_views(events@) =~= run_parts(Seq::<FragView>::empty(), ds.take(0)));
    }
    while i < n
        invariant
            n == deltas.len(),
            ds == seq_of_views(deltas@),
            0 <= i <= n,
            acc@ == run_frags(Seq::<FragView>::empty(), ds.take(i as int)),
            seq_of_views(events@) == run_parts(Seq::<FragView>::empty(), ds.take(i as int)),
        decreases n - i,
    {
        proof {
            assert(ds.take(i + 1) =~= ds.take(i as int).push(ds[i as int]));
            lemma_run_snoc(Seq::<FragView>::empty(), ds.take(i as int), ds[i as int]);
            assert(deltas@[i as int]@ == ds[i as int]);
        }
        let ghost evs0 = events@;
        let mut step_events = acc.step(&deltas[i]);
        let ghost sv = step_events@;
        events.append(&mut step_events);
        proof {
            assert(events@ == evs0 + sv);
            assert(seq_of_views(evs0 + sv) =~= seq_of_views(evs0) + seq_of_views(sv));
            assert(seq_of_views(events@) =~= run_parts(Seq::<FragView>::empty(), ds.take(i + 1)));
        }
        i += 1;
    }
    proof {
        assert(ds.take(n as int) =~= ds);
    }
    events
}

// ---------------------------------------------------------------------------
// Chunking invariance
// ---------------------------------------------------------------------------

/// A piece that carries one chunk of one tool call's argument text and
/// nothing else.
pub open spec fn arg_piece(index: u32, chunk: Seq<char>) -> PieceView {
    PieceView {
        index,
        id: Option::None,
        name: Option::None,
        arguments: Option::Some(chunk),
    }
}

/// A fragment with more argument text appended; id and name unchanged.
pub open spec fn with_appended_json(f: FragView, extra: Seq<char>) -> FragView {
    FragView { index: f.index, id: f.id, name: f.name, json: f.json + extra }
}

/// `frag_pos` depends only on the indices the fragments hold.
proof fn lemma_frag_pos_same_indices(s: Seq<FragView>, t: Seq<FragView>, index: u32)
    requires
        s.len() == t.len(),
        forall|k: int| 0 <= k < s.len() ==> s[k].index == t[k].index,
    ensures
        frag_pos(s, index) == frag_pos(t, index),
    decreases s.len(),
{
    if s.len() != 0 && s[0].index != index {
        assert(forall|k: int|
            0 <= k < s.drop_first().len() ==> s.drop_first()[k].index == t.drop_first()[k].index);
        lemma_frag_pos_same_indices(s.drop_first(), t.drop_first(), index);
    }
}

/// Feeding chunks of argument text for an already-held index appends their
/// concatenation to that fragment's argument text.
proof fn lemma_args_append_existing(s: Seq<FragView>, index: u32, chunks: Seq<Seq<char>>)
    requires
        0 <= frag_pos(s, index) < s.len(),
        s[frag_pos(s, index)].index == index,
    ensures
        apply_pieces(s, chunks.map_values(|c: Seq<char>| arg_piece(index, c))) == s.update(
            frag_pos(s, index),
            with_appended_json(s[frag_pos(s, index)], chunks.flatten()),
        ),
    decreases chunks.len(),
{
    let i = frag_pos(s, index);
    let ps = chunks.map_values(|c: Seq<char>| arg_piece(index, c));
    if chunks.len() == 0 {
        assert(ps =~= Seq::<PieceView>::empty());
        assert(chunks.flatten() =~= Seq::<char>::empty());
        assert(with_appended_json(s[i], chunks.flatten()).json =~= s[i].json);
        assert(with_appended_json(s[i], chunks.flatten()) == s[i]);
        assert(s.update(i, s[i]) =~= s);
    } else {
        assert(ps[0] == arg_piece(index, chunks[0]));
        let m1 = merge_piece(s[i], ps[0]);
        let s1 = s.update(i, m1);
        assert(apply_piece(s, ps[0]) == s1);
        assert(m1.index == index);
        assert(m1.id == s[i].id) by {
            if s[i].id.len() == 0 {
                assert(piece_text(ps[0].id) =~= s[i].id);
            }
        }
        assert(m1.name =~= s[i].name);
        assert(m1.json == s[i].json + chunks[0]);
        assert(forall|k: int| 0 <= k < s.len() ==> s1[k].index == s[k].index);
        lemma_frag_pos_same_indices(s, s1, index);
        assert(frag_pos(s1, index) == i);
        assert(ps.drop_first() =~= chunks.drop_first().map_values(
            |c: Seq<char>| arg_piece(index, c),
        ));
        lemma_args_append_existing(s1, index, chunks.drop_first());
        assert(apply_pieces(s, ps) == s1.update(
            i,
            with_appended_json(s1[i], chunks.drop_first().flatten()),
        ));
        let lhs = with_appended_json(s1[i], chunks.drop_first().flatten());
        let rhs = with_appended_json(s[i], chunks.flatten());
        assert(lhs.json =~= rhs.json) by {
            assert(chunks.flatten() == chunks[0] + chunks.drop_first().flatten());
            assert((s[i].json + chunks[0]) + chunks.drop_first().flatten() =~= s[i].json + (
            chunks[0] + chunks.drop_first().flatten()));
        }
        assert(lhs.id == rhs.id && lhs.name == rhs.name && lhs.index == rhs.index);
        assert(lhs == rhs);
        assert(s1.update(i, lhs) =~= s.update(i, rhs));
    }
}

/// For every way of chunking one tool call's argument text into consecutive
/// pieces, merging the chunks one piece at a time leaves exactly the
/// fragments that merging the whole text as a single piece leaves; the
/// completed call a later flush emits is therefore identical.
pub proof fn lemma_chunking_invariance(s: Seq<FragView>, index: u32, chunks: Seq<Seq<char>>)
    requires
        chunks.len() >= 1,
    ensures
        apply_pieces(s, chunks.map_values(|c: Seq<char>| arg_piece(index, c))) == apply_piece(
            s,
            arg_piece(index, chunks.flatten()),
        ),
{
    lemma_frag_pos_props(s, index);
    let i = frag_pos(s, index);
    let ps = chunks.map_values(|c: Seq<char>| arg_piece(index, c));
    if i >= 0 {
        lemma_args_append_existing(s, index, chunks);
        let m = merge_piece(s[i], arg_piece(index, chunks.flatten()));
        let a = with_appended_json(s[i], chunks.flatten());
        assert(m.id == a.id) by {
            if s[i].id.len() == 0 {
                assert(piece_text(Option::None) =~= Seq::<char>::empty());
                assert(m.id =~= a.id);
            }
        }
        assert(m.name =~= a.name);
        assert(m == a);
    } else {
        // the first chunk creates the fragment, the rest append to it
        assert(ps[0] == arg_piece(index, chunks[0]));
        lemma_insert_pos_bounds(s, index);
        let pos = insert_pos(s, index);
        let f0 = merge_piece(blank_frag(index), ps[0]);
        let s1 = s.insert(pos, f0);
        assert(apply_piece(s, ps[0]) == s1);
        assert(f0.index == index);
        assert(f0.id =~= Seq::<char>::empty());
        assert(f0.name =~= Seq::<char>::empty());
        assert(f0.json =~= chunks[0]);
        lemma_insert_pos_ensures(s, f0, pos);
        assert(forall|k: int| 0 <= k < pos ==> s1[k] == s[k]);
        assert(s1[pos] == f0);
        lemma_frag_pos_found_at(s1, index, pos);
        assert(ps.drop_first() =~= chunks.drop_first().map_values(
            |c: Seq<char>| arg_piece(index, c),
        ));
        lemma_args_append_existing(s1, index, chunks.drop_first());
        assert(apply_pieces(s, ps) == s1.update(
            pos,
            with_appended_json(f0, chunks.drop_first().flatten()),
        ));
        let g = with_appended_json(f0, chunks.drop_first().flatten());
        let m = merge_piece(blank_frag(index), arg_piece(index, chunks.flatten()));
        assert(g.json =~= m.json) by {
            assert(chunks.flatten() == chunks[0] + chunks.drop_first().flatten());
        }
        assert(g.id =~= m.id);
        assert(g.name =~= m.name);
        assert(g == m);
        assert(s1.update(pos, g) =~= s.insert(pos, m));
    }
}

/// A delta that carries exactly one tool-call piece and nothing else.
pub open spec fn piece_delta(p: PieceView) -> DeltaView {
    DeltaView { content: Option::None, tool_calls: seq![p], finish: Option::None }
}

/// Deltas that only carry tool-call pieces emit no events; their pieces are
/// merged exactly as if they had all arrived in one delta.
pub proof fn lemma_piece_deltas_quiet(s: Seq<FragView>, ps: Seq<PieceView>)
    ensures
        run_frags(s, ps.map_values(|p: PieceView| piece_delta(p))) == apply_pieces(s, ps),
        run_parts(s, ps.map_values(|p: PieceView| piece_delta(p))) == Seq::<PartView>::empty(),
    decreases ps.len(),
{
    let ds = ps.map_values(|p: PieceView| piece_delta(p));
    if ps.len() == 0 {
        assert(ds =~= Seq::<DeltaView>::empty());
    } else {
        assert(ds[0] == piece_delta(ps[0]));
        assert(seq![ps[0]].drop_first() =~= Seq::<PieceView>::empty());
        assert(apply_pieces(s, seq![ps[0]]) == apply_pieces(
            apply_piece(s, ps[0]),
            Seq::<PieceView>::empty(),
        ));
        assert(step_frags(s, ds[0]) == apply_piece(s, ps[0]));
        assert(step_parts(s, ds[0]) =~= Seq::<PartView>::empty());
        assert(ds.drop_first() =~= ps.drop_first().map_values(|p: PieceView| piece_delta(p)));
        lemma_piece_deltas_quiet(apply_piece(s, ps[0]), ps.drop_first());
        assert(run_parts(s, ds) =~= Seq::<PartView>::empty());
    }
}

/// For every way of chunking one tool call's argument text into a stream of
/// single-piece deltas, the stream followed by any closing delta emits
/// exactly the events that the single-piece stream followed by the same
/// closing delta emits; with an end-of-tool-calls signal as the closing
/// delta, the flushed ToolCall events are identical.
pub proof fn lemma_chunked_stream_same_events(
    s: Seq<FragView>,
    index: u32,
    chunks: Seq<Seq<char>>,
    fin: DeltaView,
)
    requires
        chunks.len() >= 1,
    ensures
        run_parts(s, chunks.map_values(|c: Seq<char>| piece_delta(arg_piece(index, c))).push(fin))
            == run_parts(s, seq![piece_delta(arg_piece(index, chunks.flatten()))].push(fin)),
{
    let pieces = chunks.map_values(|c: Seq<char>| arg_piece(index, c));
    let ds1 = chunks.map_values(|c: Seq<char>| piece_delta(arg_piece(index, c)));
    assert(ds1 =~= pieces.map_values(|p: PieceView| piece_delta(p)));
    lemma_piece_deltas_quiet(s, pieces);
    lemma_chunking_invariance(s, index, chunks);
    let single = arg_piece(index, chunks.flatten());
    assert(seq![single] =~= Seq::<PieceView>::empty().push(single));
    assert(seq![piece_delta(single)] =~= seq![single].map_values(
        |p: PieceView| piece_delta(p),
    ));
    lemma_piece_deltas_quiet(s, seq![single]);
    assert(seq![single].drop_first() =~= Seq::<PieceView>::empty());
    assert(apply_pieces(s, seq![single]) == apply_pieces(
        apply_piece(s, single),
        Seq::<PieceView>::empty(),
    ));
    lemma_run_snoc(s, ds1, fin);
    lemma_run_snoc(s, seq![piece_delta(single)], fin);
    assert(run_frags(s, ds1) == run_frags(s, seq![piece_delta(single)]));
    assert(run_parts(s, ds1.push(fin)) =~= run_parts(s, seq![piece_delta(single)].push(fin)));
}

/// `insert_pos` always lands inside the fragments, ordered or not.
proof fn lemma_insert_pos_bounds(s: Seq<FragView>, index: u32)
    ensures
        0 <= insert_pos(s, index) <= s.len(),
    decreases s.len(),
{
    if s.len() == 0 {
    } else if index < s[0].index {
    } else {
        lemma_insert_pos_bounds(s.drop_first(), index);
    }
}

/// Inserting at a position where nothing before holds the index puts the
/// first occurrence of the index there.
proof fn lemma_frag_pos_found_at(s: Seq<FragView>, index: u32, pos: int)
    requires
        0 <= pos < s.len(),
        s[pos].index == index,
        forall|k: int| 0 <= k < pos ==> s[k].index != index,
    ensures
        frag_pos(s, index) == pos,
{
    lemma_frag_pos_found(s, index, pos);
}

/// The indexing facts of `Seq::insert`.
proof fn lemma_insert_pos_ensures(s: Seq<FragView>, f: FragView, pos: int)
    requires
        0 <= pos <= s.len(),
    ensures
        s.insert(pos, f).len() == s.len() + 1,
        forall|k: int| 0 <= k < pos ==> s.insert(pos, f)[k] == s[k],
        s.insert(pos, f)[pos] == f,
        forall|k: int| pos < k < s.len() + 1 ==> s.insert(pos, f)[k] == s[k - 1],
{
    s.insert_ensures(pos, f);
}

/// Builds the fragment that results from merging a piece into the given one.
fn merge_piece_exec(f: &ToolCallFragment, piece: &ToolPiece) -> (r: ToolCallFragment)
    ensures
        r@ == merge_piece(f@, piece@),
{
    let id = if f.id.as_str().is_empty() {
        match &piece.id {
            Option::Some(s) => s.clone(),
            Option::None => String::new(),
        }
    } else {
        f.id.clone()
    };
    let mut name = f.name.clone();
    if let Option::Some(s) = &piece.name {
        name.append(s.as_str());
    }
    let mut json = f.json.clone();
    if let Option::Some(s) = &piece.arguments {
        json.append(s.as_str());
    }
    let r = ToolCallFragment { index: f.index, id, name, json };
    proof {
        assert(r@.id =~= merge_piece(f@, piece@).id);
        assert(r@.name =~= merge_piece(f@, piece@).name);
        assert(r@.json =~= merge_piece(f@, piece@).json);
    }
    r
}

} // verus!
