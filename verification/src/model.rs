//! The model boundary: bundled model discovery, the startup selection policy,
//! runtime arguments, and the messages and events exchanged with the model worker.
use vstd::prelude::*;

use crate::paths::{path_file_name, file_name_of};
use crate::text::{
    chars_of, decimal, decimal_string, eq_ignore_ascii_case, is_whitespace, is_ws, occurs_at_exec,
    range_eq_ignore_ascii_case, skip_whitespace, skip_ws, starts_with, str_eq, str_starts_with,
    string_from_range,
};

verus! {

pub const MODELS_DIRECTORY: &'static str = "models";

pub const LLAMA_SERVER_PATH: &'static str = "runtime/llama-server";

pub const DEFAULT_MODEL_NAME: &'static str = "gemma-4-E2B-it-Q4_K_M.gguf";

// ---------------------------------------------------------------------------
// Runtime version
// ---------------------------------------------------------------------------

/// Index of the `'\n'` that ends the line starting at `i` (or `s.len()`).
pub open spec fn line_end(s: Seq<char>, i: int) -> int
    decreases s.len() - i,
{
    if 0 <= i < s.len() && s[i] != '\n' {
        line_end(s, i + 1)
    } else {
        i
    }
}

/// The content of the line starting at `i`, as `str::lines` yields it:
/// without its `'\n'`, and without a `'\r'` that directly precedes that `'\n'`.
pub open spec fn line_at(s: Seq<char>, i: int) -> Seq<char> {
    let e = line_end(s, i);
    if i < e < s.len() && s[e - 1] == '\r' {
        s.subrange(i, e - 1)
    } else {
        s.subrange(i, e)
    }
}

pub proof fn lemma_line_end_bounds(s: Seq<char>, i: int)
    requires
        0 <= i <= s.len(),
    ensures
        i <= line_end(s, i) <= s.len(),
        line_end(s, i) < s.len() ==> s[line_end(s, i)] == '\n',
        forall|k: int| i <= k < line_end(s, i) ==> s[k] != '\n',
    decreases s.len() - i,
{
    if i < s.len() && s[i] != '\n' {
        lemma_line_end_bounds(s, i + 1);
    }
}

/// The start of the first line, at or after the line start `i`, that begins with `p`,
/// visiting lines in the order `str::lines` yields them.
pub open spec fn first_line_with_prefix(s: Seq<char>, i: int, p: Seq<char>) -> Option<int>
    decreases s.len() - i,
{
    if i < 0 || i >= s.len() {
        None
    } else if starts_with(line_at(s, i), p) {
        Some(i)
    } else if line_end(s, i) >= s.len() {
        None
    } else {
        proof {
            lemma_line_end_bounds(s, i);
        }
        first_line_with_prefix(s, line_end(s, i) + 1, p)
    }
}

/// The first whitespace-separated token of `t`, as `split_whitespace().next()` gives it.
pub open spec fn first_token(t: Seq<char>) -> Option<Seq<char>> {
    let a = skip_ws(t, 0);
    if a >= t.len() {
        None
    } else {
        Some(t.subrange(a, next_ws(t, a)))
    }
}

/// The first index at or after `i` whose character is whitespace (or `t.len()`).
pub open spec fn next_ws(t: Seq<char>, i: int) -> int
    decreases t.len() - i,
{
    if 0 <= i < t.len() && !is_ws(t[i]) {
        next_ws(t, i + 1)
    } else {
        i
    }
}

/// The version reported in runtime output: the first token after `version: ` on the
/// first line that starts with `version: `.
pub open spec fn version_in(s: Seq<char>) -> Option<Seq<char>> {
    match first_line_with_prefix(s, 0, "version: "@) {
        None => None,
        Some(i) => first_token(line_at(s, i).subrange(
            "version: "@.len() as int,
            line_at(s, i).len() as int,
        )),
    }
}

/// Returns `(content_end, end)` for the line starting at `i`, where `end` is the index of
/// its terminating `'\n'` (or the length).
pub fn line_bounds(cs: &[char], i: usize) -> (r: (usize, usize))
    requires
        i < cs@.len(),
    ensures
        r.0 == i + line_at(cs@, i as int).len(),
        line_at(cs@, i as int) == cs@.subrange(i as int, r.0 as int),
        r.1 == line_end(cs@, i as int),
        i <= r.0 <= r.1 <= cs@.len(),
{
    proof {
        lemma_line_end_bounds(cs@, i as int);
    }
    let mut e = i;
    while e < cs.len() && cs[e] != '\n'
        invariant
            i <= e <= cs@.len(),
            line_end(cs@, e as int) == line_end(cs@, i as int),
        decreases cs@.len() - e,
    {
        e = e + 1;
    }
    if i < e && e < cs.len() && cs[e - 1] == '\r' {
        (e - 1, e)
    } else {
        (e, e)
    }
}

/// Index of the first whitespace character in `cs[lo..hi]` (or `hi`).
fn next_whitespace(cs: &[char], lo: usize, hi: usize) -> (r: usize)
    requires
        lo <= hi <= cs@.len(),
    ensures
        r == lo + next_ws(cs@.subrange(lo as int, hi as int), 0),
        lo <= r <= hi,
{
    let ghost t = cs@.subrange(lo as int, hi as int);
    let mut i = lo;
    while i < hi && !is_whitespace(cs[i])
        invariant
            lo <= i <= hi <= cs@.len(),
            t == cs@.subrange(lo as int, hi as int),
            next_ws(t, i - lo) == next_ws(t, 0),
        decreases hi - i,
    {
        assert(t[i - lo] == cs@[i as int]);
        i = i + 1;
    }
    proof {
        if i < hi {
            assert(t[i - lo] == cs@[i as int]);
        }
    }
    i
}

/// Extracts the runtime version from `llama-server --version` output.
pub fn parse_llama_server_version(output: &str) -> (r: Option<String>)
    ensures
        match r {
            Some(v) => version_in(output@) == Some(v@),
            None => version_in(output@) is None,
        },
{
    let cs = chars_of(output);
    let ghost s = cs@;
    let ghost p = "version: "@;
    let plen = "version: ".unicode_len();
    let mut i: usize = 0;
    while i < cs.len()
        invariant
            s == cs@,
            s == output@,
            p == "version: "@,
            plen == p.len(),
            i <= cs@.len(),
            first_line_with_prefix(s, i as int, p) == first_line_with_prefix(s, 0, p),
        decreases cs@.len() - i,
    {
        let (content_end, end) = line_bounds(cs.as_slice(), i);
        let ghost line = line_at(s, i as int);
        if content_end - i >= plen && occurs_at_exec(cs.as_slice(), i, "version: ") {
            assert(line.subrange(0, plen as int) =~= s.subrange(i as int, i + plen));
            assert(starts_with(line, p));
            let a = skip_whitespace(cs.as_slice(), i + plen, content_end);
            let ghost rest = line.subrange(plen as int, line.len() as int);
            assert(rest =~= s.subrange(i + plen, content_end as int));
            if a >= content_end {
                return None;
            }
            let b = next_whitespace(cs.as_slice(), a, content_end);
            proof {
                let k = a - i - plen;
                lemma_next_ws_offset(rest, k);
                assert(rest.subrange(k, rest.len() as int) =~= s.subrange(a as int, content_end as int));
                assert(s.subrange(a as int, b as int) =~= rest.subrange(k, b - i - plen));
            }
            return Some(string_from_range(cs.as_slice(), a, b));
        }
        proof {
            if content_end - i >= plen {
                assert(line.subrange(0, plen as int) =~= s.subrange(i as int, i + plen));
            }
            assert(!starts_with(line, p));
        }
        if end >= cs.len() {
            return None;
        }
        i = end + 1;
    }
    None
}

proof fn lemma_next_ws_offset(t: Seq<char>, i: int)
    requires
        0 <= i <= t.len(),
    ensures
        next_ws(t, i) == i + next_ws(t.subrange(i, t.len() as int), 0),
    decreases t.len() - i,
{
    let u = t.subrange(i, t.len() as int);
    if i < t.len() && !is_ws(t[i]) {
        lemma_next_ws_offset(t, i + 1);
        lemma_next_ws_offset(u, 1);
        assert(u.subrange(1, u.len() as int) =~= t.subrange(i + 1, t.len() as int));
    }
}

/// The version shown for the bundled runtime, given what `llama-server --version`
/// reported: the version parsed from standard output, else from standard error,
/// else `unknown` (also when the command did not exit successfully).
pub fn llama_server_version(exited_successfully: bool, stdout: &str, stderr: &str) -> (r: String)
    ensures
        r@ == (if !exited_successfully {
            "unknown"@
        } else {
            match version_in(stdout@) {
                Some(v) => v,
                None => match version_in(stderr@) {
                    Some(v) => v,
                    None => "unknown"@,
                },
            }
        }),
{
    if !exited_successfully {
        return String::from_str("unknown");
    }
    match parse_llama_server_version(stdout) {
        Some(v) => v,
        None => match parse_llama_server_version(stderr) {
            Some(v) => v,
            None => String::from_str("unknown"),
        },
    }
}

// ---------------------------------------------------------------------------
// Available models and the startup selection
// ---------------------------------------------------------------------------

/// A usable GGUF file bundled with the application.
#[derive(Debug, Clone, PartialEq, Eq)]
pub struct AvailableModel {
    name: String,
    path: String,
}

/// The mathematical value of an [`AvailableModel`].
pub struct AvailableModelSpec {
    pub name: Seq<char>,
    pub path: Seq<char>,
}

impl View for AvailableModel {
    type V = AvailableModelSpec;

    closed spec fn view(&self) -> AvailableModelSpec {
        AvailableModelSpec { name: self.name@, path: self.path@ }
    }
}

impl AvailableModel {
    /// Describes the model file at `path`, named by its file name.
    pub fn new(path: &str) -> (r: Option<AvailableModel>)
        ensures
            match r {
                Some(m) => path_file_name(path@) == Some(m@.name) && m@.path == path@,
                None => path_file_name(path@) is None,
            },
    {
        match file_name_of(path) {
            Some(name) => Some(AvailableModel { name, path: String::from_str(path) }),
            None => None,
        }
    }

    pub fn name(&self) -> (r: &str)
        ensures
            r@ == self@.name,
    {
        self.name.as_str()
    }

    pub fn path(&self) -> (r: &str)
        ensures
            r@ == self@.path,
    {
        self.path.as_str()
    }

    /// A copy with the same name and path.
    pub fn duplicate(&self) -> (r: AvailableModel)
        ensures
            r@ == self@,
    {
        AvailableModel { name: self.name.clone(), path: self.path.clone() }
    }
}

/// Startup state derived from the bundled models and the configured default.
///
/// A configured default only positions the selector cursor. It never bypasses
/// the model selector when multiple usable models are bundled.
#[derive(Debug, PartialEq, Eq)]
pub enum StartupModelSelection {
    NoUsableModels,
    Selected(AvailableModel),
    SelectionRequired { models: Vec<AvailableModel>, selected_index: usize },
}

/// Whether `i` is the first position whose model is named `name`, or 0 when none is.
pub open spec fn default_cursor(models: Seq<AvailableModel>, name: Seq<char>, i: int) -> bool {
    0 <= i < models.len() && if exists|j: int| 0 <= j < models.len() && (#[trigger] models[j])@.name == name {
        models[i]@.name == name && forall|j: int| 0 <= j < i ==> (#[trigger] models[j])@.name != name
    } else {
        i == 0
    }
}

/// Applies the fixed startup selection policy: no model blocks startup, one model is
/// selected directly, and several models require a choice with the cursor on the default.
pub fn select_startup_model(models: Vec<AvailableModel>, default_model: &str) -> (r: StartupModelSelection)
    ensures
        models@.len() == 0 ==> r is NoUsableModels,
        models@.len() == 1 ==> r == StartupModelSelection::Selected(models@[0]),
        models@.len() >= 2 ==> match r {
            StartupModelSelection::SelectionRequired { models: ms, selected_index } =>
                ms@ == models@ && default_cursor(models@, default_model@, selected_index as int),
            _ => false,
        },
{
    if models.len() == 0 {
        return StartupModelSelection::NoUsableModels;
    }
    if models.len() == 1 {
        let mut models = models;
        let only = models.remove(0);
        return StartupModelSelection::Selected(only);
    }
    let mut i: usize = 0;
    let mut found = false;
    while i < models.len() && !found
        invariant
            i <= models@.len(),
            found ==> i < models@.len() && models@[i as int]@.name == default_model@,
            forall|j: int| 0 <= j < i ==> (#[trigger] models@[j])@.name != default_model@,
        decreases models@.len() - i + (if found { 0int } else { 1int }),
    {
        if str_eq(models[i].name(), default_model) {
            found = true;
        } else {
            i = i + 1;
        }
    }
    let selected_index = if found { i } else { 0 };
    proof {
        if !found {
            assert(!exists|j: int| 0 <= j < models@.len() && (#[trigger] models@[j])@.name == default_model@);
        }
    }
    StartupModelSelection::SelectionRequired { models, selected_index }
}

// ---------------------------------------------------------------------------
// Model parameters and runtime arguments
// ---------------------------------------------------------------------------

#[derive(Debug, Clone)]
pub struct ModelParameters {
    pub default_model: String,
    pub context_size: u32,
}

impl Default for ModelParameters {
    fn default() -> (r: ModelParameters)
        ensures
            r.default_model@ == DEFAULT_MODEL_NAME@,
            r.context_size == 8192,
    {
        ModelParameters { default_model: String::from_str(DEFAULT_MODEL_NAME), context_size: 8192 }
    }
}

impl ModelParameters {
    /// Rejects a context size of zero.
    pub fn validate(&self) -> (r: Result<(), String>)
        ensures
            self.context_size == 0 <==> r is Err,
            r matches Err(e) ==> e@ == "Context size must be greater than zero"@,
    {
        if self.context_size == 0 {
            return Err(String::from_str("Context size must be greater than zero"));
        }
        Ok(())
    }

    pub fn duplicate(&self) -> (r: ModelParameters)
        ensures
            r.default_model@ == self.default_model@,
            r.context_size == self.context_size,
    {
        ModelParameters { default_model: self.default_model.clone(), context_size: self.context_size }
    }
}

/// The arguments that start the runtime on the loopback interface with its web UI disabled.
pub open spec fn server_args_spec(model_path: Seq<char>, context_size: nat, port: nat) -> Seq<Seq<char>> {
    seq![
        "--model"@,
        model_path,
        "--ctx-size"@,
        decimal(context_size),
        "--host"@,
        "127.0.0.1"@,
        "--port"@,
        decimal(port),
        "--no-ui"@,
    ]
}

/// The command-line arguments of the runtime for `model`.
pub fn server_args(model: &AvailableModel, parameters: &ModelParameters, port: u16) -> (r: Vec<String>)
    ensures
        r@.map_values(|a: String| a@) == server_args_spec(model@.path, parameters.context_size as nat, port as nat),
{
    let mut args: Vec<String> = Vec::new();
    args.push(String::from_str("--model"));
    args.push(String::from_str(model.path()));
    args.push(String::from_str("--ctx-size"));
    args.push(decimal_string(parameters.context_size as u128));
    args.push(String::from_str("--host"));
    args.push(String::from_str("127.0.0.1"));
    args.push(String::from_str("--port"));
    args.push(decimal_string(port as u128));
    args.push(String::from_str("--no-ui"));
    assert(args@.map_values(|a: String| a@) =~= server_args_spec(
        model@.path,
        parameters.context_size as nat,
        port as nat,
    ));
    args
}

/// Whether a raw `/health` response carries a success status.
pub fn is_successful_health_response(response: &str) -> (r: bool)
    ensures
        r == (starts_with(response@, "HTTP/1.1 200"@) || starts_with(response@, "HTTP/1.0 200"@)),
{
    str_starts_with(response, "HTTP/1.1 200") || str_starts_with(response, "HTTP/1.0 200")
}

#[derive(Debug, Clone, PartialEq, Eq)]
pub enum ModelRuntimeState {
    Starting,
    Ready,
    Failed(String),
}

// ---------------------------------------------------------------------------
// Messages and events
// ---------------------------------------------------------------------------

/// One completed call to the single local execution tool.
#[derive(Debug, Clone, PartialEq, Eq)]
pub struct ToolCall {
    pub id: String,
    pub command: String,
}

pub struct ToolCallSpec {
    pub id: Seq<char>,
    pub command: Seq<char>,
}

impl View for ToolCall {
    type V = ToolCallSpec;

    open spec fn view(&self) -> ToolCallSpec {
        ToolCallSpec { id: self.id@, command: self.command@ }
    }
}

impl ToolCall {
    pub fn duplicate(&self) -> (r: ToolCall)
        ensures
            r@ == self@,
    {
        ToolCall { id: self.id.clone(), command: self.command.clone() }
    }
}

/// The views of a sequence of tool calls.
pub open spec fn calls_view(calls: Seq<ToolCall>) -> Seq<ToolCallSpec> {
    calls.map_values(|c: ToolCall| c@)
}

/// Copies a slice of tool calls.
pub fn duplicate_calls(calls: &[ToolCall]) -> (r: Vec<ToolCall>)
    ensures
        calls_view(r@) == calls_view(calls@),
{
    let mut out: Vec<ToolCall> = Vec::new();
    let mut i: usize = 0;
    while i < calls.len()
        invariant
            i <= calls@.len(),
            calls_view(out@) == calls_view(calls@.subrange(0, i as int)),
        decreases calls@.len() - i,
    {
        let c = calls[i].duplicate();
        let ghost before = out@;
        out.push(c);
        proof {
            assert(calls@.subrange(0, i + 1) =~= calls@.subrange(0, i as int).push(calls@[i as int]));
            assert(out@ =~= before.push(c));
            assert(calls_view(before.push(c)) =~= calls_view(before).push(c@));
            assert(calls_view(calls@.subrange(0, i as int).push(calls@[i as int])) =~= calls_view(
                calls@.subrange(0, i as int),
            ).push(calls@[i as int]@));
        }
        i = i + 1;
    }
    assert(calls@.subrange(0, calls@.len() as int) =~= calls@);
    out
}

/// A conversation message passed from persistent control state to the model boundary.
#[derive(Debug, Clone)]
pub enum ModelMessage {
    System(String),
    User(String),
    Model { content: String, tool_calls: Vec<ToolCall> },
    ToolResult { tool_call_id: String, content: String },
}

pub enum ModelMessageSpec {
    System(Seq<char>),
    User(Seq<char>),
    Model { content: Seq<char>, tool_calls: Seq<ToolCallSpec> },
    ToolResult { tool_call_id: Seq<char>, content: Seq<char> },
}

impl View for ModelMessage {
    type V = ModelMessageSpec;

    open spec fn view(&self) -> ModelMessageSpec {
        match self {
            ModelMessage::System(c) => ModelMessageSpec::System(c@),
            ModelMessage::User(c) => ModelMessageSpec::User(c@),
            ModelMessage::Model { content, tool_calls } => ModelMessageSpec::Model {
                content: content@,
                tool_calls: calls_view(tool_calls@),
            },
            ModelMessage::ToolResult { tool_call_id, content } => ModelMessageSpec::ToolResult {
                tool_call_id: tool_call_id@,
                content: content@,
            },
        }
    }
}

/// The views of a sequence of model messages.
pub open spec fn messages_view(ms: Seq<ModelMessage>) -> Seq<ModelMessageSpec> {
    ms.map_values(|m: ModelMessage| m@)
}

/// Token accounting reported by the runtime for one completed model request.
#[derive(Debug, Clone, Copy, PartialEq, Eq)]
pub struct TokenUsage {
    pub prompt_tokens: u32,
    pub completion_tokens: u32,
}

/// An event emitted by the streaming model worker.
#[derive(Debug, Clone, PartialEq, Eq)]
pub enum ModelEvent {
    Delta { content: String, reasoning_content: String },
    ToolCalls(Vec<ToolCall>),
    Usage(TokenUsage),
    Complete,
    Failed(String),
}

/// The mathematical value of a [`ModelEvent`].
pub enum ModelEventSpec {
    Delta { content: Seq<char>, reasoning_content: Seq<char> },
    ToolCalls(Seq<ToolCallSpec>),
    Usage(TokenUsage),
    Complete,
    Failed(Seq<char>),
}

impl View for ModelEvent {
    type V = ModelEventSpec;

    open spec fn view(&self) -> ModelEventSpec {
        match self {
            ModelEvent::Delta { content, reasoning_content } => ModelEventSpec::Delta {
                content: content@,
                reasoning_content: reasoning_content@,
            },
            ModelEvent::ToolCalls(calls) => ModelEventSpec::ToolCalls(calls_view(calls@)),
            ModelEvent::Usage(u) => ModelEventSpec::Usage(*u),
            ModelEvent::Complete => ModelEventSpec::Complete,
            ModelEvent::Failed(e) => ModelEventSpec::Failed(e@),
        }
    }
}

/// The views of a sequence of model events.
pub open spec fn events_view(es: Seq<ModelEvent>) -> Seq<ModelEventSpec> {
    es.map_values(|e: ModelEvent| e@)
}

} // verus!
