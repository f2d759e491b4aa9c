//! Reading a streamed chat completion: the HTTP status line and headers, server-sent
//! event lines, and the accumulation of streamed tool-call fragments into events.
//!
//! The caller reads lines from the connection and parses JSON payloads; this module
//! decides what each line means and which model events result.
use vstd::prelude::*;


use crate::json::{json_quote, json_string};
use crate::model::{ModelMessage, ModelMessageSpec, ModelEvent, ModelEventSpec, TokenUsage, ToolCall, ToolCallSpec, calls_view, events_view};
use crate::text::{
    chars_of, decimal, push_decimal, eq_ignore_ascii_case, is_ws, range_eq_ignore_ascii_case, skip_whitespace,
    skip_whitespace_back, skip_ws, skip_ws_back, starts_with, str_eq, str_starts_with,
    string_from_range, trim, trim_end, trim_range, trim_start,
};

verus! {

// ---------------------------------------------------------------------------
// Status line and headers
// ---------------------------------------------------------------------------

/// Whether an HTTP status line reports success (a `2xx` status of HTTP/1.1 or HTTP/1.0).
pub open spec fn status_accepted(status: Seq<char>) -> bool {
    starts_with(status, "HTTP/1.1 2"@) || starts_with(status, "HTTP/1.0 2"@)
}

/// Whether a header line is the blank line that ends the headers.
pub open spec fn header_block_end(header: Seq<char>) -> bool {
    header == seq!['\r', '\n'] || header == seq!['\n']
}

/// Whether a header line is `Transfer-Encoding: chunked` (name and value compared without
/// ASCII case, the value trimmed).
pub open spec fn header_selects_chunked(header: Seq<char>) -> bool {
    match header.index_of_first(':') {
        Some(k) => eq_ignore_ascii_case(header.subrange(0, k), "transfer-encoding"@)
            && eq_ignore_ascii_case(trim(header.subrange(k + 1, header.len() as int)), "chunked"@),
        None => false,
    }
}

/// Tests an HTTP status line for success.
pub fn status_is_accepted(status: &str) -> (r: bool)
    ensures
        r == status_accepted(status@),
{
    str_starts_with(status, "HTTP/1.1 2") || str_starts_with(status, "HTTP/1.0 2")
}

/// Tests a header line for the end of the header block.
pub fn is_header_block_end(header: &str) -> (r: bool)
    ensures
        r == header_block_end(header@),
{
    let cs = chars_of(header);
    let r = (cs.len() == 2 && cs[0] == '\r' && cs[1] == '\n') || (cs.len() == 1 && cs[0] == '\n');
    proof {
        if cs@.len() == 2 && cs@[0] == '\r' && cs@[1] == '\n' {
            assert(cs@ =~= seq!['\r', '\n']);
        }
        if cs@.len() == 1 && cs@[0] == '\n' {
            assert(cs@ =~= seq!['\n']);
        }
    }
    r
}

/// Tests a header line for `Transfer-Encoding: chunked`.
pub fn selects_chunked(header: &str) -> (r: bool)
    ensures
        r == header_selects_chunked(header@),
{
    let cs = chars_of(header);
    let mut k: usize = 0;
    while k < cs.len() && cs[k] != ':'
        invariant
            k <= cs@.len(),
            cs@ == header@,
            forall|j: int| 0 <= j < k ==> cs@[j] != ':',
        decreases cs@.len() - k,
    {
        k = k + 1;
    }
    proof {
        header@.index_of_first_ensures(':');
    }
    if k == cs.len() {
        proof {
            assert(!header@.contains(':'));
        }
        return false;
    }
    proof {
        let f = header@.index_of_first(':');
        assert(header@.contains(':'));
        assert(f == Some(k as int)) by {
            let g = f->Some_0;
            if g < k {
                assert(cs@[g] != ':');
            }
            if g > k {
                assert(header@[k as int] == ':');
            }
        }
    }
    let name = range_eq_ignore_ascii_case(cs.as_slice(), 0, k, "transfer-encoding");
    let (a, b) = trim_range(cs.as_slice(), k + 1, cs.len());
    name && range_eq_ignore_ascii_case(cs.as_slice(), a, b, "chunked")
}

/// `str::trim_end` on a string slice.
pub fn trim_end_str(s: &str) -> (r: String)
    ensures
        r@ == trim_end(s@),
{
    let cs = chars_of(s);
    let b = skip_whitespace_back(cs.as_slice(), 0, cs.len());
    proof {
        assert(cs@.subrange(0, cs@.len() as int) =~= cs@);
    }
    string_from_range(cs.as_slice(), 0, b)
}

// ---------------------------------------------------------------------------
// Server-sent event lines
// ---------------------------------------------------------------------------

/// The line without its trailing carriage returns and line feeds.
pub open spec fn strip_line_ending(line: Seq<char>) -> Seq<char>
    decreases line.len(),
{
    if line.len() > 0 && (line.last() == '\r' || line.last() == '\n') {
        strip_line_ending(line.drop_last())
    } else {
        line
    }
}

/// The value of a `data:` field line, without its leading whitespace.
pub open spec fn data_field(line: Seq<char>) -> Option<Seq<char>> {
    if starts_with(line, "data:"@) {
        Some(trim_start(line.subrange(5, line.len() as int)))
    } else {
        None
    }
}

/// The event data after one more `data:` value: values are joined by line feeds.
pub open spec fn append_data(data: Seq<char>, value: Seq<char>) -> Seq<char> {
    if data.len() == 0 {
        value
    } else {
        data.push('\n') + value
    }
}

/// The payload that ends a stream.
pub open spec fn is_done_payload(payload: Seq<char>) -> bool {
    payload == "[DONE]"@
}

// ---------------------------------------------------------------------------
// Streamed tool calls
// ---------------------------------------------------------------------------

/// A tool call assembled from streamed fragments.
pub struct PendingToolCall {
    pub id: String,
    pub name: String,
    pub arguments: String,
}

pub struct PendingToolCallSpec {
    pub id: Seq<char>,
    pub name: Seq<char>,
    pub arguments: Seq<char>,
}

impl View for PendingToolCall {
    type V = PendingToolCallSpec;

    open spec fn view(&self) -> PendingToolCallSpec {
        PendingToolCallSpec { id: self.id@, name: self.name@, arguments: self.arguments@ }
    }
}

/// The views of a sequence of pending tool calls.
pub open spec fn pending_view(calls: Seq<PendingToolCall>) -> Seq<PendingToolCallSpec> {
    calls.map_values(|c: PendingToolCall| c@)
}

/// One streamed fragment of the tool call at `index`.
pub struct ToolCallFragment {
    pub index: usize,
    pub id: String,
    pub name: String,
    pub arguments: String,
}

/// The delta of a streamed chunk's first choice.
pub struct StreamDelta {
    pub content: Option<String>,
    pub reasoning_content: Option<String>,
    pub tool_calls: Vec<ToolCallFragment>,
}

/// The parts of one streamed JSON chunk that the reader uses: the first choice's delta,
/// if the chunk has a choice, and the reported usage.
pub struct StreamChunk {
    pub delta: Option<StreamDelta>,
    pub usage: Option<TokenUsage>,
}

/// The empty pending call.
pub open spec fn empty_call() -> PendingToolCallSpec {
    PendingToolCallSpec { id: Seq::empty(), name: Seq::empty(), arguments: Seq::empty() }
}

/// The pending calls after one fragment: calls up to its index are created empty, and the
/// fragment's id, name and arguments are appended to the call at its index.
pub open spec fn apply_fragment(calls: Seq<PendingToolCallSpec>, f: ToolCallFragment) -> Seq<PendingToolCallSpec> {
    let padded = if calls.len() <= f.index {
        calls + Seq::new((f.index + 1 - calls.len()) as nat, |i: int| empty_call())
    } else {
        calls
    };
    let c = padded[f.index as int];
    padded.update(
        f.index as int,
        PendingToolCallSpec { id: c.id + f.id@, name: c.name + f.name@, arguments: c.arguments + f.arguments@ },
    )
}

/// The pending calls after a sequence of fragments, applied in order.
pub open spec fn apply_fragments(calls: Seq<PendingToolCallSpec>, fs: Seq<ToolCallFragment>) -> Seq<PendingToolCallSpec>
    decreases fs.len(),
{
    if fs.len() == 0 {
        calls
    } else {
        apply_fragment(apply_fragments(calls, fs.drop_last()), fs.last())
    }
}

/// Whether every fragment's index leaves room for the calls before it.
pub open spec fn fragments_indexable(fs: Seq<ToolCallFragment>) -> bool {
    forall|i: int| 0 <= i < fs.len() ==> (#[trigger] fs[i]).index < usize::MAX
}

/// The text of an optional string, empty when absent.
pub open spec fn text_or_empty(s: Option<String>) -> Seq<char> {
    match s {
        Some(t) => t@,
        None => Seq::empty(),
    }
}

/// The events of one chunk: its usage first, then a delta when the content or the
/// reasoning is not empty.
pub open spec fn chunk_events(chunk: StreamChunk) -> Seq<ModelEventSpec> {
    let usage = match chunk.usage {
        Some(u) => seq![ModelEventSpec::Usage(u)],
        None => Seq::empty(),
    };
    match chunk.delta {
        None => usage,
        Some(d) => {
            let content = text_or_empty(d.content);
            let reasoning = text_or_empty(d.reasoning_content);
            if content.len() > 0 || reasoning.len() > 0 {
                usage.push(ModelEventSpec::Delta { content, reasoning_content: reasoning })
            } else {
                usage
            }
        },
    }
}

/// The name of the single tool the model may call.
pub open spec fn execute_tool_name() -> Seq<char> {
    seq!['e', 'x', 'e', 'c', 'u', 't', 'e']
}

/// The tool calls of a finished stream, given the `command` parsed from each call's
/// arguments: the first call that names another tool, or whose arguments did not parse,
/// is the error.
pub open spec fn collect_calls(pending: Seq<PendingToolCallSpec>, commands: Seq<Result<Seq<char>, Seq<char>>>) -> Result<Seq<ToolCallSpec>, Seq<char>>
    decreases pending.len(),
{
    if pending.len() == 0 || commands.len() == 0 {
        Ok(Seq::empty())
    } else if pending[0].name != execute_tool_name() {
        Err("unsupported tool: "@ + pending[0].name)
    } else {
        match commands[0] {
            Err(e) => Err(e),
            Ok(command) => match collect_calls(pending.drop_first(), commands.drop_first()) {
                Ok(rest) => Ok(seq![ToolCallSpec { id: pending[0].id, command }] + rest),
                Err(e) => Err(e),
            },
        }
    }
}

/// The event that ends a stream: completion without pending calls, otherwise the calls.
pub open spec fn completion(pending: Seq<PendingToolCallSpec>, commands: Seq<Result<Seq<char>, Seq<char>>>) -> Result<ModelEventSpec, Seq<char>> {
    if pending.len() == 0 {
        Ok(ModelEventSpec::Complete)
    } else {
        match collect_calls(pending, commands) {
            Ok(calls) => Ok(ModelEventSpec::ToolCalls(calls)),
            Err(e) => Err(e),
        }
    }
}

/// The views of a sequence of parsed commands.
pub open spec fn commands_view(cs: Seq<Result<String, String>>) -> Seq<Result<Seq<char>, Seq<char>>> {
    cs.map_values(
        |c: Result<String, String>|
            match c {
                Ok(t) => Ok(t@),
                Err(e) => Err(e@),
            },
    )
}

/// Builds the event that ends a stream from its pending calls and the `command` parsed
/// from each call's arguments (one result per call, in order).
pub fn completion_event(pending: &[PendingToolCall], commands: Vec<Result<String, String>>) -> (r: Result<ModelEvent, String>)
    requires
        commands@.len() == pending@.len(),
    ensures
        match r {
            Ok(e) => completion(pending_view(pending@), commands_view(commands@)) == Ok::<ModelEventSpec, Seq<char>>(e@),
            Err(e) => completion(pending_view(pending@), commands_view(commands@)) == Err::<ModelEventSpec, Seq<char>>(e@),
        },
{
    if pending.len() == 0 {
        return Ok(ModelEvent::Complete);
    }
    let ghost ps = pending_view(pending@);
    let ghost cs = commands_view(commands@);
    let mut calls: Vec<ToolCall> = Vec::new();
    let mut i: usize = 0;
    proof {
        assert(ps.subrange(0, ps.len() as int) =~= ps);
        assert(cs.subrange(0, cs.len() as int) =~= cs);
        match collect_calls(ps, cs) {
            Ok(rest) => {
                assert(calls_view(calls@) + rest =~= rest);
            },
            Err(e) => {},
        }
    }
    while i < pending.len()
        invariant
            i <= pending@.len() == commands@.len(),
            ps == pending_view(pending@),
            cs == commands_view(commands@),
            collect_calls(ps, cs) == (match collect_calls(ps.subrange(i as int, ps.len() as int), cs.subrange(i as int, cs.len() as int)) {
                Ok(rest) => Ok(calls_view(calls@) + rest),
                Err(e) => Err::<Seq<ToolCallSpec>, Seq<char>>(e),
            }),
        decreases pending@.len() - i,
    {
        let ghost tail_p = ps.subrange(i as int, ps.len() as int);
        let ghost tail_c = cs.subrange(i as int, cs.len() as int);
        proof {
            assert(tail_p.drop_first() =~= ps.subrange(i + 1, ps.len() as int));
            assert(tail_c.drop_first() =~= cs.subrange(i + 1, cs.len() as int));
            assert(tail_p[0] == pending@[i as int]@);
            assert(tail_c[0] == cs[i as int]);
        }
        let call = &pending[i];
        if !str_eq(call.name.as_str(), "execute") {
            let mut e = String::from_str("unsupported tool: ");
            e.append(call.name.as_str());
            proof {
                reveal_strlit("execute");
                assert(execute_tool_name() =~= "execute"@);
            }
            return Err(e);
        }
        proof {
            reveal_strlit("execute");
            assert(execute_tool_name() =~= "execute"@);
        }
        match &commands[i] {
            Err(e) => {
                return Err(e.clone());
            },
            Ok(command) => {
                let ghost before = calls@;
                calls.push(ToolCall { id: call.id.clone(), command: command.clone() });
                proof {
                    assert(calls_view(calls@) =~= calls_view(before).push(ToolCallSpec { id: call.id@, command: command@ }));
                    match collect_calls(ps.subrange(i + 1, ps.len() as int), cs.subrange(i + 1, cs.len() as int)) {
                        Ok(rest) => {
                            assert(calls_view(before) + (seq![ToolCallSpec { id: call.id@, command: command@ }] + rest)
                                =~= calls_view(calls@) + rest);
                        },
                        Err(e) => {},
                    }
                }
            },
        }
        i = i + 1;
    }
    proof {
        let ps_tail = ps.subrange(i as int, ps.len() as int);
        assert(ps_tail.len() == 0);
        assert(calls_view(calls@) + Seq::<ToolCallSpec>::empty() =~= calls_view(calls@));
    }
    Ok(ModelEvent::ToolCalls(calls))
}

// ---------------------------------------------------------------------------
// The response reader
// ---------------------------------------------------------------------------

/// Where the reader is in the response.
#[derive(Debug, Clone, Copy, PartialEq, Eq, Structural)]
pub enum ResponsePhase {
    Status,
    Headers,
    Body,
}

/// What the caller does after handing the reader a line.
pub enum ReadStep {
    /// Read the next line.
    Continue,
    /// The headers are complete: read the body, decoding chunked framing when asked.
    BeginBody { chunked: bool },
    /// Parse this JSON payload and pass the chunk to [`SseReader::apply_chunk`].
    Payload(String),
    /// The stream is done: parse each call's arguments and build the final event with
    /// [`completion_event`].
    Done(Vec<PendingToolCall>),
    /// The stream failed with this error.
    Fail(String),
}

/// The mathematical value of a [`ReadStep`].
pub enum ReadStepSpec {
    Continue,
    BeginBody { chunked: bool },
    Payload(Seq<char>),
    Done(Seq<PendingToolCallSpec>),
    Fail(Seq<char>),
}

impl View for ReadStep {
    type V = ReadStepSpec;

    open spec fn view(&self) -> ReadStepSpec {
        match self {
            ReadStep::Continue => ReadStepSpec::Continue,
            ReadStep::BeginBody { chunked } => ReadStepSpec::BeginBody { chunked: *chunked },
            ReadStep::Payload(p) => ReadStepSpec::Payload(p@),
            ReadStep::Done(calls) => ReadStepSpec::Done(pending_view(calls@)),
            ReadStep::Fail(e) => ReadStepSpec::Fail(e@),
        }
    }
}

/// The state of a response being read: the phase, whether the body is chunked, the data
/// of the event being received, and the tool calls assembled so far.
pub struct SseReader {
    phase: ResponsePhase,
    chunked: bool,
    data: String,
    calls: Vec<PendingToolCall>,
}

/// The mathematical value of an [`SseReader`].
pub struct SseReaderSpec {
    pub phase: ResponsePhase,
    pub chunked: bool,
    pub data: Seq<char>,
    pub calls: Seq<PendingToolCallSpec>,
}

impl View for SseReader {
    type V = SseReaderSpec;

    closed spec fn view(&self) -> SseReaderSpec {
        SseReaderSpec { phase: self.phase, chunked: self.chunked, data: self.data@, calls: pending_view(self.calls@) }
    }
}

/// The reader state and step after one line, or the end of input (`None`).
pub open spec fn read_line_step(r: SseReaderSpec, line: Option<Seq<char>>) -> (SseReaderSpec, ReadStepSpec) {
    match r.phase {
        ResponsePhase::Status => match line {
            None => (r, ReadStepSpec::Fail("llama-server closed the connection before its HTTP status line"@)),
            Some(status) => if status_accepted(status) {
                (SseReaderSpec { phase: ResponsePhase::Headers, ..r }, ReadStepSpec::Continue)
            } else {
                (r, ReadStepSpec::Fail("llama-server returned "@ + trim_end(status)))
            },
        },
        ResponsePhase::Headers => match line {
            None => (r, ReadStepSpec::Fail("llama-server closed the connection before completing HTTP headers"@)),
            Some(header) => if header_block_end(header) {
                (SseReaderSpec { phase: ResponsePhase::Body, ..r }, ReadStepSpec::BeginBody { chunked: r.chunked })
            } else if header_selects_chunked(header) {
                (SseReaderSpec { chunked: true, ..r }, ReadStepSpec::Continue)
            } else {
                (r, ReadStepSpec::Continue)
            },
        },
        ResponsePhase::Body => match line {
            None => (r, ReadStepSpec::Fail("llama-server closed the stream before [DONE]"@)),
            Some(l) => {
                let t = strip_line_ending(l);
                if t.len() == 0 {
                    if r.data.len() == 0 {
                        (r, ReadStepSpec::Continue)
                    } else if is_done_payload(r.data) {
                        (SseReaderSpec { data: Seq::empty(), calls: Seq::empty(), ..r }, ReadStepSpec::Done(r.calls))
                    } else {
                        (SseReaderSpec { data: Seq::empty(), ..r }, ReadStepSpec::Payload(r.data))
                    }
                } else {
                    match data_field(t) {
                        Some(v) => (SseReaderSpec { data: append_data(r.data, v), ..r }, ReadStepSpec::Continue),
                        None => (r, ReadStepSpec::Continue),
                    }
                }
            },
        },
    }
}

/// The length of the line without its trailing carriage returns and line feeds.
pub fn stripped_len(cs: &[char]) -> (r: usize)
    ensures
        r <= cs@.len(),
        cs@.subrange(0, r as int) == strip_line_ending(cs@),
{
    let mut n = cs.len();
    proof {
        assert(cs@.subrange(0, n as int) =~= cs@);
    }
    while n > 0 && (cs[n - 1] == '\r' || cs[n - 1] == '\n')
        invariant
            n <= cs@.len(),
            strip_line_ending(cs@.subrange(0, n as int)) == strip_line_ending(cs@),
        decreases n,
    {
        proof {
            assert(cs@.subrange(0, n as int).drop_last() =~= cs@.subrange(0, n - 1));
        }
        n = n - 1;
    }
    n
}

impl SseReader {
    /// A reader waiting for the status line.
    pub fn new() -> (r: SseReader)
        ensures
            r@ == (SseReaderSpec { phase: ResponsePhase::Status, chunked: false, data: Seq::empty(), calls: Seq::empty() }),
    {
        let r = SseReader { phase: ResponsePhase::Status, chunked: false, data: String::new(), calls: Vec::new() };
        assert(pending_view(r.calls@) =~= Seq::<PendingToolCallSpec>::empty());
        r
    }

    /// Handles one line read from the response (with its line ending), or the end of
    /// input (`None`).
    pub fn line(&mut self, line: Option<&str>) -> (r: ReadStep)
        ensures
            (final(self)@, r@) == read_line_step(old(self)@, match line {
                Some(l) => Some(l@),
                None => None::<Seq<char>>,
            }),
    {
        match self.phase {
            ResponsePhase::Status => match line {
                None => ReadStep::Fail(String::from_str("llama-server closed the connection before its HTTP status line")),
                Some(status) => if status_is_accepted(status) {
                    self.phase = ResponsePhase::Headers;
                    ReadStep::Continue
                } else {
                    let mut e = String::from_str("llama-server returned ");
                    let t = trim_end_str(status);
                    e.append(t.as_str());
                    ReadStep::Fail(e)
                },
            },
            ResponsePhase::Headers => match line {
                None => ReadStep::Fail(String::from_str("llama-server closed the connection before completing HTTP headers")),
                Some(header) => if is_header_block_end(header) {
                    self.phase = ResponsePhase::Body;
                    ReadStep::BeginBody { chunked: self.chunked }
                } else if selects_chunked(header) {
                    self.chunked = true;
                    ReadStep::Continue
                } else {
                    ReadStep::Continue
                },
            },
            ResponsePhase::Body => match line {
                None => ReadStep::Fail(String::from_str("llama-server closed the stream before [DONE]")),
                Some(l) => {
                    let cs = chars_of(l);
                    let n = stripped_len(cs.as_slice());
                    if n == 0 {
                        if self.data.unicode_len() == 0 {
                            ReadStep::Continue
                        } else {
                            let mut payload = String::new();
                            std::mem::swap(&mut payload, &mut self.data);
                            if str_eq(payload.as_str(), "[DONE]") {
                                let mut calls: Vec<PendingToolCall> = Vec::new();
                                std::mem::swap(&mut calls, &mut self.calls);
                                assert(pending_view(self.calls@) =~= Seq::<PendingToolCallSpec>::empty());
                                ReadStep::Done(calls)
                            } else {
                                ReadStep::Payload(payload)
                            }
                        }
                    } else {
                        let ghost t = cs@.subrange(0, n as int);
                        let is_data = n >= 5 && cs[0] == 'd' && cs[1] == 'a' && cs[2] == 't' && cs[3] == 'a' && cs[4] == ':';
                        proof {
                            reveal_strlit("data:");
                            if is_data {
                                assert(t.subrange(0, 5) =~= "data:"@);
                            } else if t.len() >= 5 {
                                assert(t.subrange(0, 5) != "data:"@) by {
                                    if t.subrange(0, 5) == "data:"@ {
                                        assert(t.subrange(0, 5)[0] == 'd');
                                        assert(t.subrange(0, 5)[1] == 'a');
                                        assert(t.subrange(0, 5)[2] == 't');
                                        assert(t.subrange(0, 5)[3] == 'a');
                                        assert(t.subrange(0, 5)[4] == ':');
                                    }
                                }
                            }
                        }
                        if is_data {
                            let a = skip_whitespace(cs.as_slice(), 5, n);
                            proof {
                                assert(t.subrange(5, t.len() as int) =~= cs@.subrange(5, n as int));
                                assert(cs@.subrange(a as int, n as int) =~= trim_start(cs@.subrange(5, n as int)));
                            }
                            let value = string_from_range(cs.as_slice(), a, n);
                            let ghost before = self.data@;
                            if self.data.unicode_len() > 0 {
                                self.data.append("\n");
                                proof {
                                    reveal_strlit("\n");
                                }
                            }
                            self.data.append(value.as_str());
                            proof {
                                if before.len() > 0 {
                                    assert(self.data@ =~= before.push('\n') + value@);
                                }
                            }
                            ReadStep::Continue
                        } else {
                            ReadStep::Continue
                        }
                    }
                },
            },
        }
    }

    /// Applies one parsed chunk: records its tool-call fragments and returns its events.
    pub fn apply_chunk(&mut self, chunk: StreamChunk) -> (r: Vec<ModelEvent>)
        requires
            chunk.delta matches Some(d) ==> fragments_indexable(d.tool_calls@),
        ensures
            events_view(r@) == chunk_events(chunk),
            final(self)@ == (SseReaderSpec {
                calls: match chunk.delta {
                    Some(d) => apply_fragments(old(self)@.calls, d.tool_calls@),
                    None => old(self)@.calls,
                },
                ..old(self)@
            }),
    {
        let ghost c0 = chunk;
        let mut events: Vec<ModelEvent> = Vec::new();
        match chunk.usage {
            Some(u) => events.push(ModelEvent::Usage(u)),
            None => {},
        }
        let ghost usage_events = events_view(events@);
        proof {
            assert(usage_events =~= match c0.usage {
                Some(u) => seq![ModelEventSpec::Usage(u)],
                None => Seq::<ModelEventSpec>::empty(),
            });
        }
        match chunk.delta {
            None => events,
            Some(delta) => {
                let StreamDelta { content, reasoning_content, tool_calls } = delta;
                self.apply_fragments(tool_calls.as_slice());
                let content = match content {
                    Some(c) => c,
                    None => String::new(),
                };
                let reasoning_content = match reasoning_content {
                    Some(c) => c,
                    None => String::new(),
                };
                if content.unicode_len() > 0 || reasoning_content.unicode_len() > 0 {
                    events.push(ModelEvent::Delta { content, reasoning_content });
                    proof {
                        assert(events_view(events@) =~= chunk_events(c0));
                    }
                }
                events
            },
        }
    }

    fn apply_fragments(&mut self, fs: &[ToolCallFragment])
        requires
            fragments_indexable(fs@),
        ensures
            final(self)@ == (SseReaderSpec { calls: apply_fragments(old(self)@.calls, fs@), ..old(self)@ }),
    {
        let mut i: usize = 0;
        let ghost c0 = self@.calls;
        proof {
            assert(fs@.subrange(0, 0) =~= Seq::<ToolCallFragment>::empty());
        }
        while i < fs.len()
            invariant
                i <= fs@.len(),
                fragments_indexable(fs@),
                self@ == (SseReaderSpec { calls: apply_fragments(c0, fs@.subrange(0, i as int)), ..old(self)@ }),
            decreases fs@.len() - i,
        {
            proof {
                assert(fs@.subrange(0, i + 1).drop_last() =~= fs@.subrange(0, i as int));
                assert(fs@.subrange(0, i + 1).last() == fs@[i as int]);
            }
            self.apply_fragment(&fs[i]);
            i = i + 1;
        }
        proof {
            assert(fs@.subrange(0, fs@.len() as int) =~= fs@);
        }
    }

    fn apply_fragment(&mut self, f: &ToolCallFragment)
        requires
            f.index < usize::MAX,
        ensures
            final(self)@ == (SseReaderSpec { calls: apply_fragment(old(self)@.calls, *f), ..old(self)@ }),
    {
        let ghost c0 = self@.calls;
        let ghost n0 = self.calls@.len();
        while self.calls.len() <= f.index
            invariant
                f.index < usize::MAX,
                n0 == c0.len(),
                self.phase == old(self).phase,
                self.chunked == old(self).chunked,
                self.data@ == old(self).data@,
                n0 <= self.calls@.len(),
                self.calls@.len() <= if n0 <= f.index { f.index + 1 } else { n0 as int },
                pending_view(self.calls@) == c0 + Seq::new((self.calls@.len() - n0) as nat, |i: int| empty_call()),
            decreases f.index + 1 - self.calls@.len(),
        {
            let ghost before = self.calls@;
            let fresh = PendingToolCall { id: String::new(), name: String::new(), arguments: String::new() };
            assert(fresh@ == empty_call());
            self.calls.push(fresh);
            proof {
                let k = (before.len() - n0) as nat;
                assert(self.calls@ == before.push(fresh));
                assert(pending_view(before.push(fresh)) =~= pending_view(before).push(empty_call()));
                assert(c0 + Seq::new(k + 1, |i: int| empty_call()) =~= (c0 + Seq::new(k, |i: int| empty_call())).push(empty_call()));
            }
        }
        let ghost padded = pending_view(self.calls@);
        proof {
            if n0 <= f.index {
                assert(padded =~= c0 + Seq::new((f.index + 1 - n0) as nat, |i: int| empty_call()));
            } else {
                assert(padded =~= c0);
            }
        }
        let k = f.index;
        let mut call = PendingToolCall { id: String::new(), name: String::new(), arguments: String::new() };
        std::mem::swap(&mut call, &mut self.calls[k]);
        call.id.append(f.id.as_str());
        call.name.append(f.name.as_str());
        call.arguments.append(f.arguments.as_str());
        self.calls.set(k, call);
        proof {
            assert(pending_view(self.calls@) =~= apply_fragment(c0, *f));
        }
    }
}

// ---------------------------------------------------------------------------
// Chunked transfer coding
// ---------------------------------------------------------------------------

/// The value of a hexadecimal digit.
pub open spec fn hex_digit(c: char) -> Option<nat> {
    if '0' <= c && c <= '9' {
        Some((c as u32 - '0' as u32) as nat)
    } else if 'a' <= c && c <= 'f' {
        Some((c as u32 - 'a' as u32 + 10) as nat)
    } else if 'A' <= c && c <= 'F' {
        Some((c as u32 - 'A' as u32 + 10) as nat)
    } else {
        None
    }
}

/// Whether every character is a hexadecimal digit.
pub open spec fn all_hex(s: Seq<char>) -> bool {
    forall|i: int| 0 <= i < s.len() ==> (#[trigger] hex_digit(s[i])) is Some
}

/// The number written by hexadecimal digits.
pub open spec fn hex_value(s: Seq<char>) -> nat
    decreases s.len(),
{
    if s.len() == 0 {
        0
    } else {
        hex_value(s.drop_last()) * 16 + match hex_digit(s.last()) {
            Some(d) => d,
            None => 0,
        }
    }
}

/// `usize::from_str_radix(s, 16)`: an optional `+` sign, then at least one hexadecimal
/// digit; the value must fit in `usize`.
pub open spec fn parse_hex_usize(s: Seq<char>) -> Option<nat> {
    hex_digits_value(if s.len() > 0 && s[0] == '+' {
        s.drop_first()
    } else {
        s
    })
}

/// The value of a non-empty run of hexadecimal digits that fits in `usize`.
pub open spec fn hex_digits_value(digits: Seq<char>) -> Option<nat> {
    if digits.len() == 0 || !all_hex(digits) || hex_value(digits) > usize::MAX {
        None
    } else {
        Some(hex_value(digits))
    }
}

/// The size field of a chunk-size line: the line without trailing whitespace, up to the
/// first `;` (chunk extensions are ignored).
pub open spec fn chunk_size_field(line: Seq<char>) -> Seq<char> {
    let t = trim_end(line);
    match t.index_of_first(';') {
        Some(k) => t.subrange(0, k),
        None => t,
    }
}

/// The size announced by a chunk-size line.
pub open spec fn chunk_size(line: Seq<char>) -> Option<nat> {
    parse_hex_usize(chunk_size_field(line))
}

proof fn lemma_hex_value_prefix(s: Seq<char>, i: int)
    requires
        0 <= i <= s.len(),
    ensures
        hex_value(s.subrange(0, i)) <= hex_value(s),
    decreases s.len() - i,
{
    if i < s.len() {
        lemma_hex_value_prefix(s, i + 1);
        assert(s.subrange(0, i + 1).drop_last() =~= s.subrange(0, i));
    } else {
        assert(s.subrange(0, i) =~= s);
    }
}

fn hex_digit_exec(c: char) -> (r: Option<usize>)
    ensures
        match r {
            Some(d) => hex_digit(c) == Some(d as nat) && d < 16,
            None => hex_digit(c) is None,
        },
{
    if '0' <= c && c <= '9' {
        Some(((c as u32) - ('0' as u32)) as usize)
    } else if 'a' <= c && c <= 'f' {
        Some(((c as u32) - ('a' as u32) + 10) as usize)
    } else if 'A' <= c && c <= 'F' {
        Some(((c as u32) - ('A' as u32) + 10) as usize)
    } else {
        None
    }
}

/// Parses `cs[lo..hi]` as `usize::from_str_radix(.., 16)` does.
fn parse_hex_range(cs: &[char], lo: usize, hi: usize) -> (r: Option<usize>)
    requires
        lo <= hi <= cs@.len(),
    ensures
        match r {
            Some(v) => parse_hex_usize(cs@.subrange(lo as int, hi as int)) == Some(v as nat),
            None => parse_hex_usize(cs@.subrange(lo as int, hi as int)) is None,
        },
{
    let ghost s = cs@.subrange(lo as int, hi as int);
    let start = if lo < hi && cs[lo] == '+' { lo + 1 } else { lo };
    let ghost digits = cs@.subrange(start as int, hi as int);
    proof {
        if lo < hi {
            assert(s[0] == cs@[lo as int]);
        }
        if lo < hi && cs@[lo as int] == '+' {
            assert(s.drop_first() =~= digits);
        } else {
            assert(s =~= digits);
        }
    }
    if start == hi {
        return None;
    }
    let mut value: usize = 0;
    let mut i: usize = start;
    while i < hi
        invariant
            start <= i <= hi <= cs@.len(),
            digits == cs@.subrange(start as int, hi as int),
            parse_hex_usize(cs@.subrange(lo as int, hi as int)) == hex_digits_value(digits),
            all_hex(cs@.subrange(start as int, i as int)),
            value as nat == hex_value(cs@.subrange(start as int, i as int)),
        decreases hi - i,
    {
        let ghost prefix = cs@.subrange(start as int, i as int);
        let ghost next = cs@.subrange(start as int, i + 1);
        proof {
            assert(next.drop_last() =~= prefix);
            assert(next.last() == cs@[i as int]);
        }
        let d = match hex_digit_exec(cs[i]) {
            Some(d) => d,
            None => {
                proof {
                    assert(digits[i - start] == cs@[i as int]);
                    assert(hex_digit(digits[i - start]) is None);
                }
                return None;
            },
        };
        if value > (usize::MAX - d) / 16 {
            proof {
                assert(hex_value(next) == value * 16 + d);
                assert(hex_value(next) > usize::MAX) by (nonlinear_arith)
                    requires
                        value > (usize::MAX - d) / 16,
                        hex_value(next) == value * 16 + d,
                        d < 16,
                ;
                assert(next =~= digits.subrange(0, i + 1 - start));
                lemma_hex_value_prefix(digits, i + 1 - start);
            }
            return None;
        }
        proof {
            assert(value * 16 + d <= usize::MAX) by (nonlinear_arith)
                requires
                    value <= (usize::MAX - d) / 16,
                    d < 16,
            ;
            assert forall|k: int| 0 <= k < next.len() implies (#[trigger] hex_digit(next[k])) is Some by {
                if k < prefix.len() {
                    assert(next[k] == prefix[k]);
                }
            }
        }
        value = value * 16 + d;
        i = i + 1;
    }
    Some(value)
}

/// The size announced by a chunk-size line, as `HttpBody` reads it.
pub fn parse_chunk_size(line: &str) -> (r: Option<usize>)
    ensures
        match r {
            Some(v) => chunk_size(line@) == Some(v as nat),
            None => chunk_size(line@) is None,
        },
{
    let cs = chars_of(line);
    let b = skip_whitespace_back(cs.as_slice(), 0, cs.len());
    let ghost t = cs@.subrange(0, b as int);
    proof {
        assert(cs@.subrange(0, cs@.len() as int) =~= cs@);
        assert(t == trim_end(line@));
    }
    let mut e: usize = 0;
    while e < b && cs[e] != ';'
        invariant
            e <= b <= cs@.len(),
            t == cs@.subrange(0, b as int),
            forall|j: int| 0 <= j < e ==> t[j] != ';',
        decreases b - e,
    {
        e = e + 1;
    }
    proof {
        t.index_of_first_ensures(';');
        if e < b {
            assert(t[e as int] == ';');
            assert(t.contains(';'));
            let f = t.index_of_first(';')->Some_0;
            assert(f == e) by {
                if f < e {
                    assert(t[f] != ';');
                }
                if f > e {}
            }
            assert(t.subrange(0, e as int) =~= cs@.subrange(0, e as int));
        } else {
            assert(!t.contains(';'));
        }
    }
    parse_hex_range(cs.as_slice(), 0, e)
}

/// Why a chunked body could not be decoded.
#[derive(Debug, Clone, Copy, PartialEq, Eq, Structural)]
pub enum ChunkError {
    /// A chunk-size line did not announce a size.
    InvalidSize,
    /// A chunk was not followed by a carriage return and a line feed.
    InvalidEnding,
}

impl ChunkError {
    /// The error message.
    pub fn message(&self) -> (r: String)
        ensures
            r@ == chunk_error_message(*self),
    {
        match self {
            ChunkError::InvalidSize => String::from_str("invalid HTTP chunk size"),
            ChunkError::InvalidEnding => String::from_str("invalid HTTP chunk ending"),
        }
    }
}

/// The message of a chunk error.
pub open spec fn chunk_error_message(e: ChunkError) -> Seq<char> {
    match e {
        ChunkError::InvalidSize => "invalid HTTP chunk size"@,
        ChunkError::InvalidEnding => "invalid HTTP chunk ending"@,
    }
}

/// Whether two bytes end a chunk.
pub open spec fn chunk_ending(ending: Seq<u8>) -> bool {
    ending == seq![13u8, 10u8]
}

/// What the body reader reads next.
#[derive(Debug, Clone, Copy, PartialEq, Eq, Structural)]
pub enum BodyRead {
    /// The body is not chunked: read the connection directly.
    Raw,
    /// The body has ended.
    End,
    /// Read the next chunk-size line and pass it to [`HttpBody::size_line`].
    SizeLine,
    /// Read at most this many bytes of the current chunk, then report them with
    /// [`HttpBody::consumed`].
    Data(usize),
}

/// The framing state of a response body: whether it is chunked, the bytes left in the
/// current chunk, and whether the last chunk was reached.
pub struct HttpBody {
    chunked: bool,
    remaining: usize,
    finished: bool,
}

impl HttpBody {
    pub closed spec fn is_chunked(&self) -> bool {
        self.chunked
    }

    pub closed spec fn remaining(&self) -> nat {
        self.remaining as nat
    }

    pub closed spec fn finished(&self) -> bool {
        self.finished
    }

    /// The state at the start of a body.
    pub fn new(chunked: bool) -> (r: HttpBody)
        ensures
            r.is_chunked() == chunked,
            r.remaining() == 0,
            !r.finished(),
    {
        HttpBody { chunked, remaining: 0, finished: false }
    }

    /// What to read next into a buffer of `capacity` bytes.
    pub fn next_read(&self, capacity: usize) -> (r: BodyRead)
        ensures
            r == (if !self.is_chunked() {
                BodyRead::Raw
            } else if self.finished() || capacity == 0 {
                BodyRead::End
            } else if self.remaining() == 0 {
                BodyRead::SizeLine
            } else {
                BodyRead::Data(if capacity < self.remaining() { capacity } else { self.remaining() as usize })
            }),
    {
        if !self.chunked {
            BodyRead::Raw
        } else if self.finished || capacity == 0 {
            BodyRead::End
        } else if self.remaining == 0 {
            BodyRead::SizeLine
        } else {
            BodyRead::Data(if capacity < self.remaining { capacity } else { self.remaining })
        }
    }

    /// Takes a chunk-size line: the announced size becomes the bytes left; a size of zero
    /// ends the body.
    pub fn size_line(&mut self, line: &str) -> (r: Result<(), ChunkError>)
        ensures
            final(self).is_chunked() == old(self).is_chunked(),
            match chunk_size(line@) {
                Some(n) => r is Ok && final(self).remaining() == n && final(self).finished() == (old(self).finished() || n == 0),
                None => r == Err::<(), ChunkError>(ChunkError::InvalidSize) && final(self).remaining()
                    == old(self).remaining() && final(self).finished() == old(self).finished(),
            },
    {
        match parse_chunk_size(line) {
            Some(n) => {
                self.remaining = n;
                if n == 0 {
                    self.finished = true;
                }
                Ok(())
            },
            None => Err(ChunkError::InvalidSize),
        }
    }

    /// Records `count` bytes read from the current chunk. Returns whether the chunk is
    /// complete, so that its ending must be read next.
    pub fn consumed(&mut self, count: usize) -> (r: bool)
        requires
            count <= old(self).remaining(),
        ensures
            final(self).is_chunked() == old(self).is_chunked(),
            final(self).finished() == old(self).finished(),
            final(self).remaining() == old(self).remaining() - count,
            r == (final(self).remaining() == 0),
    {
        self.remaining = self.remaining - count;
        self.remaining == 0
    }
}

/// Tests the two bytes that follow a chunk.
pub fn is_chunk_ending(ending: &[u8]) -> (r: bool)
    ensures
        r == chunk_ending(ending@),
{
    let r = ending.len() == 2 && ending[0] == 13u8 && ending[1] == 10u8;
    proof {
        if r {
            assert(ending@ =~= seq![13u8, 10u8]);
        }
    }
    r
}

// ---------------------------------------------------------------------------
// The chat request
// ---------------------------------------------------------------------------

/// A tool call as the chat API receives it: a call of the `execute` function whose
/// arguments are a JSON object holding the command.
pub struct HttpToolCall {
    pub id: String,
    pub arguments: String,
}

/// A conversation message as the chat API receives it; absent fields are omitted.
pub struct HttpMessage {
    pub role: &'static str,
    pub content: Option<String>,
    pub tool_calls: Option<Vec<HttpToolCall>>,
    pub tool_call_id: Option<String>,
}

/// The arguments of an `execute` call: `{"command":...}` with the command as a JSON string.
pub open spec fn execute_arguments_json(command: Seq<char>) -> Seq<char> {
    "{\"command\":"@ + json_string(command) + "}"@
}

/// The JSON arguments of an `execute` call for `command`.
pub fn execute_arguments(command: &str) -> (r: String)
    ensures
        r@ == execute_arguments_json(command@),
{
    let mut out = String::from_str("{\"command\":");
    let quoted = json_quote(command);
    out.append(quoted.as_str());
    out.append("}");
    out
}

/// The views of API tool calls, as identity and arguments.
pub open spec fn http_calls_view(calls: Seq<HttpToolCall>) -> Seq<(Seq<char>, Seq<char>)> {
    calls.map_values(|c: HttpToolCall| (c.id@, c.arguments@))
}

/// The API form of a message. The model's messages take the API's `assistant` role; an
/// empty answer is omitted, and so is an empty list of calls.
pub open spec fn http_form(m: ModelMessageSpec, h: HttpMessage) -> bool {
    match m {
        ModelMessageSpec::System(c) => {
            &&& h.role@ == "system"@
            &&& h.content matches Some(t) && t@ == c
            &&& h.tool_calls is None
            &&& h.tool_call_id is None
        },
        ModelMessageSpec::User(c) => {
            &&& h.role@ == "user"@
            &&& h.content matches Some(t) && t@ == c
            &&& h.tool_calls is None
            &&& h.tool_call_id is None
        },
        ModelMessageSpec::Model { content, tool_calls } => {
            &&& h.role@ == "assistant"@
            &&& if content.len() > 0 { h.content matches Some(t) && t@ == content } else { h.content is None }
            &&& if tool_calls.len() > 0 {
                h.tool_calls matches Some(calls) && http_calls_view(calls@) == tool_calls.map_values(
                    |c: ToolCallSpec| (c.id, execute_arguments_json(c.command)),
                )
            } else {
                h.tool_calls is None
            }
            &&& h.tool_call_id is None
        },
        ModelMessageSpec::ToolResult { tool_call_id, content } => {
            &&& h.role@ == "tool"@
            &&& h.content matches Some(t) && t@ == content
            &&& h.tool_calls is None
            &&& h.tool_call_id matches Some(i) && i@ == tool_call_id
        },
    }
}

/// Converts a conversation message to the API's form.
pub fn http_message(m: &ModelMessage) -> (r: HttpMessage)
    ensures
        http_form(m@, r),
{
    match m {
        ModelMessage::System(c) => HttpMessage { role: "system", content: Some(c.clone()), tool_calls: None, tool_call_id: None },
        ModelMessage::User(c) => HttpMessage { role: "user", content: Some(c.clone()), tool_calls: None, tool_call_id: None },
        ModelMessage::Model { content, tool_calls } => {
            let content = if content.unicode_len() > 0 { Some(content.clone()) } else { None };
            let calls = if tool_calls.len() > 0 {
                let mut out: Vec<HttpToolCall> = Vec::new();
                let mut i: usize = 0;
                while i < tool_calls.len()
                    invariant
                        i <= tool_calls@.len(),
                        http_calls_view(out@) == calls_view(tool_calls@.subrange(0, i as int)).map_values(
                            |c: ToolCallSpec| (c.id, execute_arguments_json(c.command)),
                        ),
                    decreases tool_calls@.len() - i,
                {
                    let ghost before = out@;
                    let call = &tool_calls[i];
                    out.push(HttpToolCall { id: call.id.clone(), arguments: execute_arguments(call.command.as_str()) });
                    proof {
                        assert(http_calls_view(out@) =~= http_calls_view(before).push((call.id@, execute_arguments_json(call.command@))));
                        assert(calls_view(tool_calls@.subrange(0, i + 1)) =~= calls_view(tool_calls@.subrange(0, i as int)).push(call@));
                        assert(calls_view(tool_calls@.subrange(0, i + 1)).map_values(
                            |c: ToolCallSpec| (c.id, execute_arguments_json(c.command)),
                        ) =~= calls_view(tool_calls@.subrange(0, i as int)).map_values(
                            |c: ToolCallSpec| (c.id, execute_arguments_json(c.command)),
                        ).push((call.id@, execute_arguments_json(call.command@))));
                    }
                    i = i + 1;
                }
                proof {
                    assert(tool_calls@.subrange(0, tool_calls@.len() as int) =~= tool_calls@);
                }
                Some(out)
            } else {
                None
            };
            HttpMessage { role: "assistant", content, tool_calls: calls, tool_call_id: None }
        },
        ModelMessage::ToolResult { tool_call_id, content } => HttpMessage {
            role: "tool",
            content: Some(content.clone()),
            tool_calls: None,
            tool_call_id: Some(tool_call_id.clone()),
        },
    }
}

/// The request head of a streamed chat completion whose JSON body has `body_len` bytes.
pub open spec fn request_head_text(body_len: nat) -> Seq<char> {
    "POST /v1/chat/completions HTTP/1.1\r\nHost: localhost\r\nAccept: text/event-stream\r\nContent-Type: application/json\r\nContent-Length: "@
        + decimal(body_len) + "\r\nConnection: close\r\n\r\n"@
}

/// Writes the request head for a body of `body_len` bytes; the body follows it.
pub fn request_head(body_len: usize) -> (r: String)
    ensures
        r@ == request_head_text(body_len as nat),
{
    let mut out = String::from_str(
        "POST /v1/chat/completions HTTP/1.1\r\nHost: localhost\r\nAccept: text/event-stream\r\nContent-Type: application/json\r\nContent-Length: ",
    );
    push_decimal(&mut out, body_len as u128);
    out.append("\r\nConnection: close\r\n\r\n");
    out
}

/// Streamed text is never dropped: a chunk whose delta carries content or reasoning (either
/// one alone, such as reasoning streamed while the model thinks) yields a delta event with
/// both texts, and reported usage yields a usage event.
pub proof fn law_streamed_text_is_kept(chunk: StreamChunk)
    ensures
        chunk.delta matches Some(d) && (text_or_empty(d.content).len() > 0 || text_or_empty(
            d.reasoning_content,
        ).len() > 0) ==> chunk_events(chunk).contains(
            ModelEventSpec::Delta {
                content: text_or_empty(chunk.delta->Some_0.content),
                reasoning_content: text_or_empty(chunk.delta->Some_0.reasoning_content),
            },
        ),
        chunk.usage matches Some(u) ==> chunk_events(chunk).contains(ModelEventSpec::Usage(u)),
{
    let events = chunk_events(chunk);
    if chunk.usage is Some {
        assert(events[0] == ModelEventSpec::Usage(chunk.usage->Some_0));
    }
    if chunk.delta is Some {
        let d = chunk.delta->Some_0;
        let content = text_or_empty(d.content);
        let reasoning = text_or_empty(d.reasoning_content);
        if content.len() > 0 || reasoning.len() > 0 {
            assert(events[events.len() - 1] == ModelEventSpec::Delta { content, reasoning_content: reasoning });
        }
    }
}

} // verus!
