//! Reading DeepSeek's streamed chat completion: which lines carry events,
//! how content and fragmented tool calls add up, and what a complete
//! response is.
use vstd::prelude::*;

use crate::text::{chars_of, has_prefix, owned, range_equals, range_has_prefix, string_of};
use crate::tools::{calls_view, empty_call, CallView, ToolCall};

verus! {

/// The assistant's reply: its text and the tool calls it asks for.
pub struct Response {
    pub content: String,
    pub tool_calls: Vec<ToolCall>,
}

/// One entry of a chunk's `delta.tool_calls`: the fields that are present
/// as text (or as an unsigned number for `index`).
pub struct ToolCallDelta {
    pub index: Option<u64>,
    pub id: Option<String>,
    pub name: Option<String>,
    pub arguments: Option<String>,
}

/// What one streamed chunk says in `choices[0].delta`: its text, and its
/// tool call updates when `tool_calls` is an array.
pub struct StreamChunk {
    pub content: Option<String>,
    pub tool_calls: Option<Vec<ToolCallDelta>>,
}

/// A chunk as plain values.
pub struct ChunkView {
    pub content: Option<Seq<char>>,
    pub tool_calls: Option<Seq<DeltaView>>,
}

impl View for StreamChunk {
    type V = ChunkView;

    open spec fn view(&self) -> ChunkView {
        ChunkView { content: opt_view(self.content), tool_calls: updates_view(self.tool_calls) }
    }
}

/// What `serde_json` reads from an event's text, in `choices[0].delta`:
/// `content` when it is a string, and `tool_calls` when it is an array,
/// with each entry's `index` (`as_u64`) and its `id`, `function.name` and
/// `function.arguments` when they are strings; or the parser's message
/// when the text is not JSON.
pub uninterp spec fn json_chunk(event: Seq<char>) -> Result<ChunkView, Seq<char>>;

/// Calls `serde_json::from_str` to read the event as a JSON value, then
/// picks out `choices[0].delta` as `json_chunk` describes (`as_str`,
/// `as_array`, `as_u64`); claimed: the chunk is `json_chunk` of the text,
/// and an error carries the parser's message exactly when `json_chunk` is
/// an error.
#[verifier::external_body]
pub(crate) fn parse_chunk(event: &str) -> (r: Result<StreamChunk, String>)
    ensures
        match json_chunk(event@) {
            Ok(c) => r matches Ok(x) && x@ == c,
            Err(e) => r matches Err(m) && m@ == e,
        },
{
    let v: serde_json::Value = serde_json::from_str(event).map_err(|e| e.to_string())?;
    let d = &v["choices"][0]["delta"];
    let text = |x: &serde_json::Value| x.as_str().map(String::from);
    let calls = d["tool_calls"].as_array().map(|us| us.iter().map(|u| ToolCallDelta {
        index: u["index"].as_u64(),
        id: text(&u["id"]),
        name: text(&u["function"]["name"]),
        arguments: text(&u["function"]["arguments"]),
    }).collect());
    Ok(StreamChunk { content: text(&d["content"]), tool_calls: calls })
}

/// A tool call update as plain values.
pub struct DeltaView {
    pub index: Option<u64>,
    pub id: Option<Seq<char>>,
    pub name: Option<Seq<char>>,
    pub arguments: Option<Seq<char>>,
}

/// The text of an optional string.
pub open spec fn opt_view(s: Option<String>) -> Option<Seq<char>> {
    match s {
        Some(t) => Some(t@),
        None => None,
    }
}

impl View for ToolCallDelta {
    type V = DeltaView;

    open spec fn view(&self) -> DeltaView {
        DeltaView {
            index: self.index,
            id: opt_view(self.id),
            name: opt_view(self.name),
            arguments: opt_view(self.arguments),
        }
    }
}

/// The views of a list of updates.
pub open spec fn deltas_view(ds: Seq<ToolCallDelta>) -> Seq<DeltaView> {
    ds.map_values(|d: ToolCallDelta| d@)
}

/// Why a stream could not be read.
#[derive(Debug)]
pub enum StreamError {
    /// A tool call update without an `index`.
    MissingIndex,
    /// The stream ended with no text and no tool call.
    EmptyResponse,
}

impl StreamError {
    /// The text shown to the user.
    pub fn message(&self) -> (r: String)
        ensures
            r@ == match self {
                StreamError::MissingIndex => "tool call has no index"@,
                StreamError::EmptyResponse => "unexpected empty response from DeepSeek"@,
            },
    {
        match self {
            StreamError::MissingIndex => owned("tool call has no index"),
            StreamError::EmptyResponse => owned("unexpected empty response from DeepSeek"),
        }
    }
}

/// What a line of the event stream means.
pub enum StreamLine {
    /// Not a `data: ` line.
    Skip,
    /// `data: [DONE]`: the stream is over.
    Done,
    /// `data: <json>`: one chunk, as text.
    Event(String),
}

/// The meaning of a line of the event stream.
pub open spec fn line_kind(line: Seq<char>) -> Option<Option<Seq<char>>> {
    if has_prefix(line, "data: "@) {
        let event = line.skip(6);
        if event == "[DONE]"@ {
            Some(None)
        } else {
            Some(Some(event))
        }
    } else {
        None
    }
}

/// Sorts a line of the event stream: lines that do not start with
/// `data: ` are skipped, `data: [DONE]` ends the stream, and any other
/// `data: ` line carries the text after the prefix.
pub fn classify_line(line: &str) -> (r: StreamLine)
    ensures
        match line_kind(line@) {
            None => r is Skip,
            Some(None) => r is Done,
            Some(Some(event)) => r matches StreamLine::Event(e) && e@ == event,
        },
{
    proof {
        reveal_strlit("data: ");
    }
    let v = chars_of(line);
    let n = v.len();
    assert(v@.subrange(0, n as int) =~= v@);
    if !range_has_prefix(&v, 0, n, "data: ") {
        return StreamLine::Skip;
    }
    assert(v@.subrange(6, n as int) =~= v@.skip(6));
    if range_equals(&v, 6, n, "[DONE]") {
        StreamLine::Done
    } else {
        StreamLine::Event(string_of(&v, 6, n))
    }
}

/// `calls` padded with empty calls to at least `n` entries.
pub open spec fn grow(calls: Seq<CallView>, n: nat) -> Seq<CallView> {
    if calls.len() >= n {
        calls
    } else {
        calls + Seq::new((n - calls.len()) as nat, |i: int| empty_call())
    }
}

/// The effect of one update that has an index: the call at that index
/// (created empty when missing) takes the new id and name, and the argument
/// fragment is appended to its arguments.
pub open spec fn apply_delta(calls: Seq<CallView>, d: DeltaView) -> Seq<CallView> {
    let i = d.index.unwrap() as int;
    let c = grow(calls, (i + 1) as nat);
    let old = c[i];
    c.update(
        i,
        CallView {
            id: match d.id {
                Some(id) => id,
                None => old.id,
            },
            name: match d.name {
                Some(name) => name,
                None => old.name,
            },
            arguments: match d.arguments {
                Some(a) => old.arguments + a,
                None => old.arguments,
            },
        },
    )
}

/// Updates applied in order; the flag is false once an update without an
/// index stopped the merge (the calls are then as they were just before
/// it).
pub open spec fn merged(calls: Seq<CallView>, ds: Seq<DeltaView>) -> (Seq<CallView>, bool)
    decreases ds.len(),
{
    if ds.len() == 0 {
        (calls, true)
    } else {
        let (c, ok) = merged(calls, ds.drop_last());
        if !ok {
            (c, false)
        } else if ds.last().index is None {
            (c, false)
        } else {
            (apply_delta(c, ds.last()), true)
        }
    }
}

/// Every update's index, where it has one, leaves room to count one past it.
pub open spec fn indices_fit(ds: Seq<DeltaView>) -> bool {
    forall|k: int| 0 <= k < ds.len() ==> ((#[trigger] ds[k]).index matches Some(i) ==> i < usize::MAX)
}

/// The calls after a list of updates, or `calls` itself when the list is
/// absent (the chunk had no `tool_calls` array).
pub open spec fn merged_opt(calls: Seq<CallView>, updates: Option<Seq<DeltaView>>) -> (Seq<CallView>, bool) {
    match updates {
        Some(ds) => merged(calls, ds),
        None => (calls, true),
    }
}

/// The updates of an optional list, as plain values.
pub open spec fn updates_view(updates: Option<Vec<ToolCallDelta>>) -> Option<Seq<DeltaView>> {
    match updates {
        Some(v) => Some(deltas_view(v@)),
        None => None,
    }
}

proof fn lemma_grow(c: Seq<CallView>, n: nat)
    ensures
        grow(c, n).len() == if c.len() >= n {
            c.len()
        } else {
            n
        },
        forall|j: int| 0 <= j < c.len() ==> grow(c, n)[j] == c[j],
        forall|j: int| c.len() <= j < n ==> grow(c, n)[j] == empty_call(),
{
}

/// Pads `calls` with empty calls up to `n` entries.
fn pad_calls(calls: &mut Vec<ToolCall>, n: usize)
    ensures
        calls_view(final(calls)@) == grow(calls_view(old(calls)@), n as nat),
{
    let ghost start = calls_view(calls@);
    assert(grow(start, calls@.len() as nat) =~= start);
    while calls.len() < n
        invariant
            calls@.len() >= start.len(),
            calls@.len() <= n || calls@.len() == start.len(),
            calls_view(calls@) == grow(start, calls@.len() as nat),
        decreases n - calls.len(),
    {
        let ghost before = calls_view(calls@);
        calls.push(ToolCall::empty());
        assert(calls_view(calls@) =~= before.push(empty_call()));
        assert(grow(start, calls@.len() as nat) =~= grow(start, (calls@.len() - 1) as nat).push(
            empty_call(),
        ));
    }
    assert(grow(start, calls@.len() as nat) =~= grow(start, n as nat));
}

/// Applies one update that has an index.
fn apply_update(calls: &mut Vec<ToolCall>, d: &ToolCallDelta, index: u64)
    requires
        d.index == Some(index),
        index < usize::MAX,
    ensures
        calls_view(final(calls)@) == apply_delta(calls_view(old(calls)@), d@),
{
    let i = index as usize;
    pad_calls(calls, i + 1);
    let ghost padded = calls_view(calls@);
    proof {
        lemma_grow(calls_view(old(calls)@), (i + 1) as nat);
        assert(padded.len() == calls@.len());
    }
    let current = &calls[i];
    let id = match &d.id {
        Some(id) => id.clone(),
        None => current.id.clone(),
    };
    let name = match &d.name {
        Some(name) => name.clone(),
        None => current.name.clone(),
    };
    let mut arguments = current.arguments.clone();
    match &d.arguments {
        Some(a) => arguments.append(a.as_str()),
        None => {},
    }
    let updated = ToolCall { id, name, arguments };
    assert(padded[i as int] == calls@[i as int]@);
    calls.set(i, updated);
    assert(calls_view(calls@) =~= apply_delta(calls_view(old(calls)@), d@));
}

/// Merges one chunk's tool call updates into the calls gathered so far:
/// each update names the call by `index` (missing calls are created
/// empty), may set its id and name, and appends an argument fragment. An
/// update without an index is an error; the updates before it have been
/// applied.
pub fn merge_tool_calls(calls: &mut Vec<ToolCall>, updates: &Option<Vec<ToolCallDelta>>) -> (r:
    Result<(), StreamError>)
    requires
        updates matches Some(ds) ==> indices_fit(deltas_view(ds@)),
    ensures
        calls_view(final(calls)@) == merged_opt(calls_view(old(calls)@), updates_view(*updates)).0,
        r is Ok <==> merged_opt(calls_view(old(calls)@), updates_view(*updates)).1,
        r matches Err(e) ==> e is MissingIndex,
{
    match updates {
        None => Ok(()),
        Some(ds) => {
            let ghost start = calls_view(calls@);
            let ghost dv = deltas_view(ds@);
            assert(updates_view(*updates) == Some(dv));
            assert(dv.take(0) =~= Seq::<DeltaView>::empty());
            for k in 0..ds.len()
                invariant
                    start == calls_view(old(calls)@),
                    dv == deltas_view(ds@),
                    updates_view(*updates) == Some(dv),
                    indices_fit(dv),
                    merged(start, dv.take(k as int)) == (calls_view(calls@), true),
            {
                let d = &ds[k];
                assert(dv.take(k + 1).drop_last() =~= dv.take(k as int));
                assert(dv[k as int] == d@);
                match d.index {
                    None => {
                        assert(merged(start, dv.take(k + 1)).1 == false);
                        proof {
                            lemma_merge_stops(start, dv, k + 1);
                        }
                        return Err(StreamError::MissingIndex);
                    },
                    Some(index) => {
                        apply_update(calls, d, index);
                    },
                }
            }
            assert(dv.take(ds.len() as int) =~= dv);
            Ok(())
        },
    }
}

/// Once an update without an index has stopped the merge, later updates
/// change nothing.
proof fn lemma_merge_stops(calls: Seq<CallView>, ds: Seq<DeltaView>, k: int)
    requires
        0 <= k <= ds.len(),
        merged(calls, ds.take(k)).1 == false,
    ensures
        merged(calls, ds) == merged(calls, ds.take(k)),
    decreases ds.len() - k,
{
    if k < ds.len() {
        assert(ds.take(k + 1).drop_last() =~= ds.take(k));
        lemma_merge_stops(calls, ds, k + 1);
    } else {
        assert(ds.take(k) =~= ds);
    }
}

/// Merging chunk by chunk is merging all their updates at once: the
/// calls after the updates of `a` and then those of `b` are the calls
/// after `a + b`.
pub proof fn lemma_merge_in_chunks(calls: Seq<CallView>, a: Seq<DeltaView>, b: Seq<DeltaView>)
    ensures
        merged(calls, a).1 ==> merged(merged(calls, a).0, b) == merged(calls, a + b),
        !merged(calls, a).1 ==> merged(calls, a + b) == merged(calls, a),
    decreases b.len(),
{
    if b.len() == 0 {
        assert(a + b =~= a);
    } else {
        lemma_merge_in_chunks(calls, a, b.drop_last());
        assert((a + b).drop_last() =~= a + b.drop_last());
        assert((a + b).last() == b.last());
    }
}

/// Why an event of the stream could not be taken in.
pub enum EventError {
    /// The event is not JSON: the parser's message.
    Json(String),
    /// A tool call index too large for the calls to be held in memory.
    IndexTooLarge,
    /// The chunk could not be merged.
    Stream(StreamError),
}

impl EventError {
    /// The text shown to the user.
    pub fn message(&self) -> (r: String)
        ensures
            r@ == match self {
                EventError::Json(m) => m@,
                EventError::IndexTooLarge => "tool call index does not fit in memory"@,
                EventError::Stream(StreamError::MissingIndex) => "tool call has no index"@,
                EventError::Stream(StreamError::EmptyResponse) =>
                    "unexpected empty response from DeepSeek"@,
            },
    {
        match self {
            EventError::Json(m) => m.clone(),
            EventError::IndexTooLarge => owned("tool call index does not fit in memory"),
            EventError::Stream(e) => e.message(),
        }
    }
}

/// Every tool call index of the chunk leaves room to hold the calls.
pub open spec fn chunk_fits(c: ChunkView) -> bool {
    c.tool_calls matches Some(ds) ==> indices_fit(ds)
}

fn indices_fit_exec(updates: &Vec<ToolCallDelta>) -> (r: bool)
    ensures
        r == indices_fit(deltas_view(updates@)),
{
    let ghost ds = deltas_view(updates@);
    for k in 0..updates.len()
        invariant
            ds == deltas_view(updates@),
            forall|j: int| 0 <= j < k ==> ((#[trigger] ds[j]).index matches Some(i) ==> i < usize::MAX),
    {
        match updates[k].index {
            Some(i) => {
                if i >= usize::MAX as u64 {
                    assert(ds[k as int].index == Some(i));
                    return false;
                }
            },
            None => {},
        }
    }
    true
}

/// One update with an index changes only the call at that index (created,
/// with any missing calls before it, as an empty call when the list is too
/// short): a given id or name replaces the old one, and an argument
/// fragment is appended to the arguments.
pub proof fn lemma_update_one_call(calls: Seq<CallView>, d: DeltaView)
    requires
        d.index is Some,
    ensures
        ({
            let i = d.index->0 as int;
            let r = apply_delta(calls, d);
            let before = if i < calls.len() { calls[i] } else { empty_call() };
            &&& r.len() == if i < calls.len() { calls.len() as int } else { i + 1 }
            &&& forall|j: int| 0 <= j < calls.len() && j != i ==> #[trigger] r[j] == calls[j]
            &&& forall|j: int| calls.len() <= j < i ==> #[trigger] r[j] == empty_call()
            &&& r[i].id == (if d.id is Some { d.id->0 } else { before.id })
            &&& r[i].name == (if d.name is Some { d.name->0 } else { before.name })
            &&& r[i].arguments == before.arguments + (if d.arguments is Some {
                d.arguments->0
            } else {
                Seq::<char>::empty()
            })
        }),
{
    let i = d.index->0 as int;
    lemma_grow(calls, (i + 1) as nat);
    if d.arguments is None {
        let c = grow(calls, (i + 1) as nat);
        assert(c[i].arguments + Seq::<char>::empty() =~= c[i].arguments);
    }
}

/// A list of updates merges in full exactly when every update has an
/// index; otherwise merging stops with an error.
pub proof fn lemma_merge_needs_indices(calls: Seq<CallView>, ds: Seq<DeltaView>)
    ensures
        merged(calls, ds).1 <==> forall|k: int| 0 <= k < ds.len() ==> (#[trigger] ds[k]).index is Some,
    decreases ds.len(),
{
    if ds.len() > 0 {
        let init = ds.drop_last();
        lemma_merge_needs_indices(calls, init);
        if forall|k: int| 0 <= k < ds.len() ==> (#[trigger] ds[k]).index is Some {
            assert forall|k: int| 0 <= k < init.len() implies (#[trigger] init[k]).index is Some by {
                assert(init[k] == ds[k]);
            }
            assert(ds[ds.len() - 1].index is Some);
        } else {
            let k = choose|k: int| 0 <= k < ds.len() && !((#[trigger] ds[k]).index is Some);
            if k < init.len() {
                assert(init[k] == ds[k]);
            }
        }
    }
}

/// How a line of the event stream is read: a line that does not start
/// with `data: ` is skipped; `data: [DONE]` ends the stream; any other
/// `data: ` line is an event, and the event with the prefix put back is
/// the line.
pub proof fn lemma_event_lines(line: Seq<char>)
    ensures
        line_kind(line) is None <==> !(line.len() >= 6 && line.take(6) == "data: "@),
        line_kind(line) == Some(None::<Seq<char>>) <==> line == "data: [DONE]"@,
        line_kind(line) matches Some(Some(e)) ==> line == "data: "@ + e && e != "[DONE]"@,
{
    reveal_strlit("data: ");
    reveal_strlit("[DONE]");
    reveal_strlit("data: [DONE]");
    if line.len() >= 6 && line.take(6) == "data: "@ {
        assert(line =~= "data: "@ + line.skip(6));
        if line.skip(6) == "[DONE]"@ {
            assert(line =~= "data: [DONE]"@);
        }
    }
    if line == "data: [DONE]"@ {
        assert(line.take(6) =~= "data: "@);
        assert(line.skip(6) =~= "[DONE]"@);
    }
}

/// What has been read of a streamed reply so far.
pub struct StreamState {
    pub content: String,
    pub tool_calls: Vec<ToolCall>,
}

impl StreamState {
    /// Nothing read yet.
    pub fn new() -> (r: StreamState)
        ensures
            r.content@ == Seq::<char>::empty(),
            r.tool_calls@.len() == 0,
    {
        StreamState { content: String::new(), tool_calls: Vec::new() }
    }

    /// Takes in one chunk: its text is appended to the content, then its
    /// tool call updates are merged.
    pub fn apply(&mut self, chunk: &StreamChunk) -> (r: Result<(), StreamError>)
        requires
            chunk.tool_calls matches Some(ds) ==> indices_fit(deltas_view(ds@)),
        ensures
            final(self).content@ == old(self).content@ + match chunk.content {
                Some(t) => t@,
                None => Seq::<char>::empty(),
            },
            calls_view(final(self).tool_calls@) == merged_opt(
                calls_view(old(self).tool_calls@),
                updates_view(chunk.tool_calls),
            ).0,
            r is Ok <==> merged_opt(
                calls_view(old(self).tool_calls@),
                updates_view(chunk.tool_calls),
            ).1,
            r matches Err(e) ==> e is MissingIndex,
    {
        match &chunk.content {
            Some(t) => self.content.append(t.as_str()),
            None => {},
        }
        merge_tool_calls(&mut self.tool_calls, &chunk.tool_calls)
    }

    /// Takes in one event's text: it is read as a JSON chunk, which is
    /// then applied; an event that is not JSON, or whose tool call index is
    /// too large to hold, leaves the state as it was.
    pub fn apply_event(&mut self, event: &str) -> (r: Result<(), EventError>)
        ensures
            match json_chunk(event@) {
                Err(m) => {
                    &&& r matches Err(EventError::Json(t)) && t@ == m
                    &&& final(self).content@ == old(self).content@
                    &&& final(self).tool_calls@ == old(self).tool_calls@
                },
                Ok(c) => if !chunk_fits(c) {
                    &&& r matches Err(EventError::IndexTooLarge)
                    &&& final(self).content@ == old(self).content@
                    &&& final(self).tool_calls@ == old(self).tool_calls@
                } else {
                    &&& final(self).content@ == old(self).content@ + match c.content {
                        Some(t) => t,
                        None => Seq::<char>::empty(),
                    }
                    &&& calls_view(final(self).tool_calls@) == merged_opt(
                        calls_view(old(self).tool_calls@),
                        c.tool_calls,
                    ).0
                    &&& r is Ok <==> merged_opt(calls_view(old(self).tool_calls@), c.tool_calls).1
                    &&& r matches Err(e) ==> e matches EventError::Stream(StreamError::MissingIndex)
                },
            },
    {
        match parse_chunk(event) {
            Err(m) => Err(EventError::Json(m)),
            Ok(chunk) => {
                let fits = match &chunk.tool_calls {
                    Some(updates) => indices_fit_exec(updates),
                    None => true,
                };
                if !fits {
                    return Err(EventError::IndexTooLarge);
                }
                match &chunk.content {
                    Some(t) => assert(chunk@.content == Some(t@)),
                    None => {},
                }
                match self.apply(&chunk) {
                    Ok(()) => Ok(()),
                    Err(e) => Err(EventError::Stream(e)),
                }
            },
        }
    }

    /// The reply once the stream has ended: an error when it brought
    /// neither text nor tool calls.
    pub fn finish(self) -> (r: Result<Response, StreamError>)
        ensures
            self.content@.len() == 0 && self.tool_calls@.len() == 0 ==> r matches Err(
                StreamError::EmptyResponse,
            ),
            !(self.content@.len() == 0 && self.tool_calls@.len() == 0) ==> (r matches Ok(resp)
                && resp.content@ == self.content@ && resp.tool_calls@ == self.tool_calls@),
    {
        if self.content.unicode_len() == 0 && self.tool_calls.len() == 0 {
            Err(StreamError::EmptyResponse)
        } else {
            Ok(Response { content: self.content, tool_calls: self.tool_calls })
        }
    }
}

} // verus!
