//! Persistent conversations: stored sessions and messages, their identities, the
//! read-only views the terminal UI renders, and the conversation history sent to the model.
use vstd::prelude::*;

use crate::execute::{ExecResult, ExecResultSpec};
use crate::json::{json_quote, json_string};
use crate::model::{
    ModelMessage, ModelMessageSpec, ToolCall, ToolCallSpec, TokenUsage, calls_view, messages_view,
    duplicate_calls, line_at, line_end, lemma_line_end_bounds, line_bounds,
};
use crate::paths::{file_name_of, file_stem_of, path_file_name, path_file_stem};
use crate::text::{
    chars_of, decimal, push_decimal, signed_decimal, signed_decimal_string, str_eq, string_from_range,
    trim, trim_range, skip_ws, skip_ws_back, lemma_skip_ws_bounds, lemma_skip_ws_back_bounds,
};

verus! {

pub const RUNTIME_SETTINGS_FILE_NAME: &'static str = "runtime.json";

pub const LEGACY_DEFAULT_SETTINGS_FILE_NAME: &'static str = "default.json";

/// Stable identity for one persisted conversation.
#[derive(Debug, Clone, PartialEq, Eq)]
pub struct SessionId(pub String);

impl SessionId {
    pub fn duplicate(&self) -> (r: SessionId)
        ensures
            r.0@ == self.0@,
    {
        SessionId(self.0.clone())
    }
}

#[derive(Debug, Clone, Copy, PartialEq, Eq, Structural)]
pub enum MessageRole {
    User,
    Model,
    Exec,
    ExecResult,
}

#[derive(Debug, Clone)]
pub struct StoredMessage {
    pub role: MessageRole,
    pub content: String,
    pub reasoning_content: String,
    pub tool_call_id: String,
    pub status: String,
    pub exit_code: Option<i32>,
    pub duration_ms: u128,
    pub timed_out: bool,
}

pub struct StoredMessageSpec {
    pub role: MessageRole,
    pub content: Seq<char>,
    pub reasoning_content: Seq<char>,
    pub tool_call_id: Seq<char>,
    pub status: Seq<char>,
    pub exit_code: Option<i32>,
    pub duration_ms: u128,
    pub timed_out: bool,
}

impl View for StoredMessage {
    type V = StoredMessageSpec;

    open spec fn view(&self) -> StoredMessageSpec {
        StoredMessageSpec {
            role: self.role,
            content: self.content@,
            reasoning_content: self.reasoning_content@,
            tool_call_id: self.tool_call_id@,
            status: self.status@,
            exit_code: self.exit_code,
            duration_ms: self.duration_ms,
            timed_out: self.timed_out,
        }
    }
}

/// A message with the given role and content and no other data.
pub open spec fn plain_message(role: MessageRole, content: Seq<char>) -> StoredMessageSpec {
    StoredMessageSpec {
        role,
        content,
        reasoning_content: Seq::empty(),
        tool_call_id: Seq::empty(),
        status: Seq::empty(),
        exit_code: None,
        duration_ms: 0,
        timed_out: false,
    }
}

impl StoredMessage {
    /// A message with the given role and content and no other data.
    pub fn plain(role: MessageRole, content: String) -> (r: StoredMessage)
        ensures
            r@ == plain_message(role, content@),
    {
        StoredMessage {
            role,
            content,
            reasoning_content: String::new(),
            tool_call_id: String::new(),
            status: String::new(),
            exit_code: None,
            duration_ms: 0,
            timed_out: false,
        }
    }

    pub fn duplicate(&self) -> (r: StoredMessage)
        ensures
            r@ == self@,
    {
        StoredMessage {
            role: self.role,
            content: self.content.clone(),
            reasoning_content: self.reasoning_content.clone(),
            tool_call_id: self.tool_call_id.clone(),
            status: self.status.clone(),
            exit_code: self.exit_code,
            duration_ms: self.duration_ms,
            timed_out: self.timed_out,
        }
    }
}

#[derive(Debug, Clone)]
pub struct StoredSession {
    pub id: SessionId,
    pub title: String,
    pub messages: Vec<StoredMessage>,
    pub profiles: Vec<String>,
    pub last_usage: Option<TokenUsage>,
}

pub struct StoredSessionSpec {
    pub id: Seq<char>,
    pub title: Seq<char>,
    pub messages: Seq<StoredMessageSpec>,
    pub profiles: Seq<Seq<char>>,
    pub last_usage: Option<TokenUsage>,
}

pub open spec fn stored_messages_view(ms: Seq<StoredMessage>) -> Seq<StoredMessageSpec> {
    ms.map_values(|m: StoredMessage| m@)
}

pub open spec fn strings_view(ss: Seq<String>) -> Seq<Seq<char>> {
    ss.map_values(|s: String| s@)
}

impl View for StoredSession {
    type V = StoredSessionSpec;

    open spec fn view(&self) -> StoredSessionSpec {
        StoredSessionSpec {
            id: self.id.0@,
            title: self.title@,
            messages: stored_messages_view(self.messages@),
            profiles: strings_view(self.profiles@),
            last_usage: self.last_usage,
        }
    }
}

/// Copies a list of strings.
pub fn duplicate_strings(ss: &[String]) -> (r: Vec<String>)
    ensures
        strings_view(r@) == strings_view(ss@),
        r@.len() == ss@.len(),
{
    let mut out: Vec<String> = Vec::new();
    let mut i: usize = 0;
    while i < ss.len()
        invariant
            i <= ss@.len(),
            out@.len() == i,
            forall|j: int| 0 <= j < i ==> (#[trigger] out@[j])@ == ss@[j]@,
        decreases ss@.len() - i,
    {
        out.push(ss[i].clone());
        i = i + 1;
    }
    assert(strings_view(out@) =~= strings_view(ss@));
    out
}

/// Copies a list of stored messages.
pub fn duplicate_messages(ms: &[StoredMessage]) -> (r: Vec<StoredMessage>)
    ensures
        stored_messages_view(r@) == stored_messages_view(ms@),
{
    let mut out: Vec<StoredMessage> = Vec::new();
    let mut i: usize = 0;
    while i < ms.len()
        invariant
            i <= ms@.len(),
            out@.len() == i,
            forall|j: int| 0 <= j < i ==> (#[trigger] out@[j])@ == ms@[j]@,
        decreases ms@.len() - i,
    {
        out.push(ms[i].duplicate());
        i = i + 1;
    }
    assert(stored_messages_view(out@) =~= stored_messages_view(ms@));
    out
}

impl StoredSession {
    pub fn duplicate(&self) -> (r: StoredSession)
        ensures
            r@ == self@,
    {
        StoredSession {
            id: self.id.duplicate(),
            title: self.title.clone(),
            messages: duplicate_messages(self.messages.as_slice()),
            profiles: duplicate_strings(self.profiles.as_slice()),
            last_usage: self.last_usage,
        }
    }
}

/// A new, empty session with the given identity.
pub fn new_session(id: SessionId) -> (r: StoredSession)
    ensures
        r@.id == id.0@,
        r@.title == "New session"@,
        r@.messages.len() == 0,
        r@.profiles.len() == 0,
        r@.last_usage is None,
{
    let r = StoredSession {
        id,
        title: String::from_str("New session"),
        messages: Vec::new(),
        profiles: Vec::new(),
        last_usage: None,
    };
    assert(r@.messages =~= Seq::<StoredMessageSpec>::empty());
    r
}

// ---------------------------------------------------------------------------
// Identities
// ---------------------------------------------------------------------------

/// A character allowed in a session identity, which doubles as its file name.
pub open spec fn is_id_char(c: char) -> bool {
    ('a' <= c && c <= 'z') || ('A' <= c && c <= 'Z') || ('0' <= c && c <= '9') || c == '-' || c == '_'
}

/// A session identity is non-empty and made of ASCII letters, digits, `-` and `_` only.
pub open spec fn valid_session_id(id: Seq<char>) -> bool {
    id.len() > 0 && forall|i: int| 0 <= i < id.len() ==> is_id_char(#[trigger] id[i])
}

/// Whether a session identity is safe to use as a file name.
pub fn session_id_is_valid(id: &SessionId) -> (r: bool)
    ensures
        r == valid_session_id(id.0@),
{
    let cs = chars_of(id.0.as_str());
    if cs.len() == 0 {
        return false;
    }
    let mut i: usize = 0;
    while i < cs.len()
        invariant
            cs@ == id.0@,
            i <= cs@.len(),
            forall|j: int| 0 <= j < i ==> is_id_char(#[trigger] cs@[j]),
        decreases cs@.len() - i,
    {
        let c = cs[i];
        if !(('a' <= c && c <= 'z') || ('A' <= c && c <= 'Z') || ('0' <= c && c <= '9') || c == '-'
            || c == '_') {
            return false;
        }
        i = i + 1;
    }
    true
}

/// The identity tried for a new session: `session-<timestamp>`, then
/// `session-<timestamp>-<sequence>` for later attempts.
pub open spec fn session_id_candidate_spec(timestamp_ms: nat, sequence: nat) -> Seq<char> {
    if sequence == 0 {
        "session-"@ + decimal(timestamp_ms)
    } else {
        "session-"@ + decimal(timestamp_ms) + "-"@ + decimal(sequence)
    }
}

pub fn session_id_candidate(timestamp_ms: u128, sequence: u32) -> (r: SessionId)
    ensures
        r.0@ == session_id_candidate_spec(timestamp_ms as nat, sequence as nat),
{
    let mut s = String::from_str("session-");
    push_decimal(&mut s, timestamp_ms);
    if sequence != 0 {
        s.append("-");
        push_decimal(&mut s, sequence as u128);
    }
    SessionId(s)
}

// ---------------------------------------------------------------------------
// Titles
// ---------------------------------------------------------------------------

/// The start of the first line, at or after the line start `i`, that holds more than
/// whitespace, visiting lines in the order `str::lines` yields them.
pub open spec fn first_nonblank_line(s: Seq<char>, i: int) -> Option<int>
    decreases s.len() - i,
{
    if i < 0 || i >= s.len() {
        None
    } else if trim(line_at(s, i)).len() > 0 {
        Some(i)
    } else if line_end(s, i) >= s.len() {
        None
    } else {
        proof {
            lemma_line_end_bounds(s, i);
        }
        first_nonblank_line(s, line_end(s, i) + 1)
    }
}

/// The title given to a session by its first message: the first non-blank line, trimmed,
/// shortened to 45 characters and `...` when it is longer than 48 characters.
pub open spec fn title_of(content: Seq<char>) -> Seq<char> {
    let line = match first_nonblank_line(content, 0) {
        Some(i) => line_at(content, i),
        None => "New session"@,
    };
    let t = trim(line);
    if t.len() <= 48 {
        t
    } else {
        t.subrange(0, 45) + "..."@
    }
}

pub fn title_from_first_message(content: &str) -> (r: String)
    ensures
        r@ == title_of(content@),
{
    let cs = chars_of(content);
    let ghost s = cs@;
    let mut i: usize = 0;
    let mut range: Option<(usize, usize)> = None;
    while i < cs.len() && range.is_none()
        invariant
            s == cs@,
            s == content@,
            i <= cs@.len(),
            range matches Some(rg) ==> first_nonblank_line(s, 0) == Some(i as int) && rg.0 <= rg.1
                <= s.len() && s.subrange(rg.0 as int, rg.1 as int) == trim(line_at(s, i as int)),
            range is None ==> first_nonblank_line(s, i as int) == first_nonblank_line(s, 0),
        decreases cs@.len() - i + (if range is None { 1int } else { 0int }),
    {
        let (content_end, end) = line_bounds(cs.as_slice(), i);
        let (a, b) = trim_range(cs.as_slice(), i, content_end);
        if a < b {
            range = Some((a, b));
        } else if end >= cs.len() {
            i = cs.len();
        } else {
            i = end + 1;
        }
    }
    let (chars, a, b) = match range {
        Some((a, b)) => (cs, a, b),
        None => {
            let d = chars_of("New session");
            let (a, b) = trim_range(d.as_slice(), 0, d.len());
            proof {
                assert(d@.subrange(0, d@.len() as int) =~= d@);
            }
            (d, a, b)
        },
    };
    let ghost t = chars@.subrange(a as int, b as int);
    assert(t == trim(match first_nonblank_line(s, 0) {
        Some(k) => line_at(s, k),
        None => "New session"@,
    }));
    if b - a <= 48 {
        string_from_range(chars.as_slice(), a, b)
    } else {
        let mut out = string_from_range(chars.as_slice(), a, a + 45);
        out.append("...");
        assert(t.subrange(0, 45) =~= chars@.subrange(a as int, a + 45));
        out
    }
}

// ---------------------------------------------------------------------------
// Views for the terminal UI
// ---------------------------------------------------------------------------

/// Read-only session information used by the terminal UI.
#[derive(Debug, Clone, PartialEq, Eq)]
pub struct SessionSummary {
    pub id: String,
    pub title: String,
}

#[derive(Debug, Clone, PartialEq, Eq)]
pub struct MessageView {
    pub role: String,
    pub content: String,
    pub reasoning_content: String,
    pub status: String,
}

/// Read-only active session content for transcript rendering.
#[derive(Debug, Clone, PartialEq, Eq)]
pub struct SessionView {
    pub id: String,
    pub title: String,
    pub messages: Vec<MessageView>,
    pub profiles: Vec<String>,
}

/// Read-only application data for rendering the main work surface.
#[derive(Debug, Clone, PartialEq, Eq)]
pub struct AppSnapshot {
    pub sessions: Vec<SessionSummary>,
    pub active_session: Option<SessionView>,
}

/// The role name shown for a stored message role.
pub open spec fn role_name(role: MessageRole) -> Seq<char> {
    match role {
        MessageRole::User => "user"@,
        MessageRole::Model => "model"@,
        MessageRole::Exec => "exec"@,
        MessageRole::ExecResult => "exec_result"@,
    }
}

pub fn role_label(role: MessageRole) -> (r: String)
    ensures
        r@ == role_name(role),
{
    match role {
        MessageRole::User => String::from_str("user"),
        MessageRole::Model => String::from_str("model"),
        MessageRole::Exec => String::from_str("exec"),
        MessageRole::ExecResult => String::from_str("exec_result"),
    }
}

/// Whether `v` shows the stored message `m`.
pub open spec fn shows_message(v: MessageView, m: StoredMessageSpec) -> bool {
    &&& v.role@ == role_name(m.role)
    &&& v.content@ == m.content
    &&& v.reasoning_content@ == m.reasoning_content
    &&& v.status@ == m.status
}

/// Whether `v` shows the stored session `s`.
pub open spec fn shows_session(v: SessionView, s: StoredSessionSpec) -> bool {
    &&& v.id@ == s.id
    &&& v.title@ == s.title
    &&& v.messages@.len() == s.messages.len()
    &&& forall|i: int| 0 <= i < s.messages.len() ==> shows_message(#[trigger] v.messages@[i], s.messages[i])
    &&& strings_view(v.profiles@) == s.profiles
}

/// Whether `v` summarises the stored session `s`.
pub open spec fn summarises(v: SessionSummary, s: StoredSessionSpec) -> bool {
    v.id@ == s.id && v.title@ == s.title
}

pub fn session_summary(session: &StoredSession) -> (r: SessionSummary)
    ensures
        summarises(r, session@),
{
    SessionSummary { id: session.id.0.clone(), title: session.title.clone() }
}

pub fn session_view(session: &StoredSession) -> (r: SessionView)
    ensures
        shows_session(r, session@),
{
    let mut messages: Vec<MessageView> = Vec::new();
    let mut i: usize = 0;
    while i < session.messages.len()
        invariant
            i <= session.messages@.len(),
            messages@.len() == i,
            forall|j: int| 0 <= j < i ==> shows_message(#[trigger] messages@[j], session.messages@[j]@),
        decreases session.messages@.len() - i,
    {
        let m = &session.messages[i];
        messages.push(MessageView {
            role: role_label(m.role),
            content: m.content.clone(),
            reasoning_content: m.reasoning_content.clone(),
            status: m.status.clone(),
        });
        i = i + 1;
    }
    SessionView {
        id: session.id.0.clone(),
        title: session.title.clone(),
        messages,
        profiles: duplicate_strings(session.profiles.as_slice()),
    }
}

// ---------------------------------------------------------------------------
// Tool exchanges recorded in a session
// ---------------------------------------------------------------------------

/// The stored message that records a command's result.
pub open spec fn exec_result_message(result: ExecResultSpec, tool_call_id: Seq<char>) -> StoredMessageSpec {
    StoredMessageSpec {
        role: MessageRole::ExecResult,
        content: result.stdout,
        reasoning_content: result.stderr,
        tool_call_id,
        status: result.status,
        exit_code: result.exit_code,
        duration_ms: result.duration_ms,
        timed_out: result.timed_out,
    }
}

pub fn push_exec_result(session: &mut StoredSession, result: ExecResult, tool_call_id: String)
    ensures
        final(session)@ == (StoredSessionSpec {
            messages: old(session)@.messages.push(exec_result_message(result@, tool_call_id@)),
            ..old(session)@
        }),
{
    let ghost before = session@;
    let m = StoredMessage {
        role: MessageRole::ExecResult,
        content: result.stdout,
        reasoning_content: result.stderr,
        tool_call_id,
        status: result.status,
        exit_code: result.exit_code,
        duration_ms: result.duration_ms,
        timed_out: result.timed_out,
    };
    session.messages.push(m);
    assert(session@.messages =~= before.messages.push(exec_result_message(result@, tool_call_id@)));
}

// ---------------------------------------------------------------------------
// Conversation history sent to the model
// ---------------------------------------------------------------------------

/// The JSON object sent to the model as a tool result (keys in sorted order).
pub open spec fn tool_result_json(m: StoredMessageSpec) -> Seq<char> {
    "{\"duration_ms\":"@ + decimal(m.duration_ms as nat) + ",\"exit_code\":"@ + match m.exit_code {
        Some(c) => signed_decimal(c as int),
        None => "null"@,
    } + ",\"status\":"@ + json_string(m.status) + ",\"stderr\":"@ + json_string(m.reasoning_content)
        + ",\"stdout\":"@ + json_string(m.content) + ",\"timed_out\":"@ + if m.timed_out {
        "true"@
    } else {
        "false"@
    } + "}"@
}

pub fn tool_result_content(m: &StoredMessage) -> (r: String)
    ensures
        r@ == tool_result_json(m@),
{
    let mut out = String::from_str("{\"duration_ms\":");
    push_decimal(&mut out, m.duration_ms);
    out.append(",\"exit_code\":");
    match m.exit_code {
        Some(c) => {
            let t = signed_decimal_string(c);
            out.append(t.as_str());
        },
        None => out.append("null"),
    }
    out.append(",\"status\":");
    let t = json_quote(m.status.as_str());
    out.append(t.as_str());
    out.append(",\"stderr\":");
    let t = json_quote(m.reasoning_content.as_str());
    out.append(t.as_str());
    out.append(",\"stdout\":");
    let t = json_quote(m.content.as_str());
    out.append(t.as_str());
    out.append(",\"timed_out\":");
    if m.timed_out {
        out.append("true");
    } else {
        out.append("false");
    }
    out.append("}");
    assert(out@ =~= tool_result_json(m@));
    out
}

/// Adds one stored message to the history built so far. Reasoning is presentation-only:
/// a model message without content is left out. A command is attached to the preceding
/// model message when there is one, and otherwise opens a model message of its own.
pub open spec fn history_step(h: Seq<ModelMessageSpec>, m: StoredMessageSpec) -> Seq<ModelMessageSpec> {
    match m.role {
        MessageRole::User => h.push(ModelMessageSpec::User(m.content)),
        MessageRole::Model => if m.content.len() > 0 {
            h.push(ModelMessageSpec::Model { content: m.content, tool_calls: Seq::empty() })
        } else {
            h
        },
        MessageRole::Exec => {
            let call = ToolCallSpec { id: m.tool_call_id, command: m.content };
            if h.len() > 0 && h.last() is Model {
                h.update(
                    h.len() - 1,
                    ModelMessageSpec::Model {
                        content: h.last()->Model_content,
                        tool_calls: h.last()->Model_tool_calls.push(call),
                    },
                )
            } else {
                h.push(ModelMessageSpec::Model { content: Seq::empty(), tool_calls: seq![call] })
            }
        },
        MessageRole::ExecResult => h.push(
            ModelMessageSpec::ToolResult { tool_call_id: m.tool_call_id, content: tool_result_json(m) },
        ),
    }
}

/// The history that follows `prefix` for the stored messages `ms`.
pub open spec fn history(prefix: Seq<ModelMessageSpec>, ms: Seq<StoredMessageSpec>) -> Seq<ModelMessageSpec>
    decreases ms.len(),
{
    if ms.len() == 0 {
        prefix
    } else {
        history_step(history(prefix, ms.drop_last()), ms.last())
    }
}

/// The system messages that open every request: the combined system prompt, then each
/// selected profile in order.
pub open spec fn system_prefix(system_prompt: Seq<char>, profiles: Seq<Seq<char>>) -> Seq<ModelMessageSpec> {
    seq![ModelMessageSpec::System(system_prompt)] + profiles.map_values(|p: Seq<char>| ModelMessageSpec::System(p))
}

/// Builds the messages of a model request for `session`. `profile_texts[i]` holds the
/// text of the profile `session.profiles[i]`.
pub fn model_messages_for_session(session: &StoredSession, system_prompt: String, profile_texts: Vec<String>) -> (r: Vec<ModelMessage>)
    ensures
        messages_view(r@) == history(system_prefix(system_prompt@, strings_view(profile_texts@)), session@.messages),
{
    let mut out: Vec<ModelMessage> = Vec::new();
    let ghost sp = system_prompt@;
    out.push(ModelMessage::System(system_prompt));
    let mut k: usize = 0;
    while k < profile_texts.len()
        invariant
            k <= profile_texts@.len(),
            messages_view(out@) == system_prefix(sp, strings_view(profile_texts@.subrange(0, k as int))),
        decreases profile_texts@.len() - k,
    {
        let ghost before = out@;
        out.push(ModelMessage::System(profile_texts[k].clone()));
        proof {
            assert(profile_texts@.subrange(0, k + 1) =~= profile_texts@.subrange(0, k as int).push(profile_texts@[k as int]));
            assert(messages_view(out@) =~= messages_view(before).push(ModelMessageSpec::System(profile_texts@[k as int]@)));
            assert(system_prefix(sp, strings_view(profile_texts@.subrange(0, k + 1))) =~= system_prefix(
                sp,
                strings_view(profile_texts@.subrange(0, k as int)),
            ).push(ModelMessageSpec::System(profile_texts@[k as int]@)));
        }
        k = k + 1;
    }
    proof {
        assert(profile_texts@.subrange(0, profile_texts@.len() as int) =~= profile_texts@);
    }
    let ghost prefix = system_prefix(sp, strings_view(profile_texts@));
    let ghost ms = session@.messages;
    let mut i: usize = 0;
    while i < session.messages.len()
        invariant
            i <= session.messages@.len(),
            ms == session@.messages,
            ms.len() == session.messages@.len(),
            messages_view(out@) == history(prefix, ms.subrange(0, i as int)),
        decreases session.messages@.len() - i,
    {
        let m = &session.messages[i];
        let ghost h = messages_view(out@);
        proof {
            assert(ms.subrange(0, i + 1).drop_last() =~= ms.subrange(0, i as int));
            assert(ms.subrange(0, i + 1).last() == m@);
        }
        match m.role {
            MessageRole::User => {
                out.push(ModelMessage::User(m.content.clone()));
                assert(messages_view(out@) =~= history_step(h, m@));
            },
            MessageRole::Model => {
                if m.content.unicode_len() > 0 {
                    let v: Vec<ToolCall> = Vec::new();
                    out.push(ModelMessage::Model { content: m.content.clone(), tool_calls: v });
                    assert(calls_view(v@) =~= Seq::<ToolCallSpec>::empty());
                    assert(messages_view(out@) =~= history_step(h, m@));
                }
            },
            MessageRole::Exec => {
                let call = ToolCall { id: m.tool_call_id.clone(), command: m.content.clone() };
                let n = out.len();
                let last_is_model = n > 0 && match &out[n - 1] {
                    ModelMessage::Model { .. } => true,
                    _ => false,
                };
                if last_is_model {
                    let last = out.pop().unwrap();
                    match last {
                        ModelMessage::Model { content, tool_calls } => {
                            let mut tool_calls = tool_calls;
                            let ghost tc = tool_calls@;
                            tool_calls.push(call);
                            assert(calls_view(tool_calls@) =~= calls_view(tc).push(call@));
                            out.push(ModelMessage::Model { content, tool_calls });
                        },
                        _ => {},
                    }
                    assert(messages_view(out@) =~= history_step(h, m@));
                } else {
                    let mut tool_calls: Vec<ToolCall> = Vec::new();
                    tool_calls.push(call);
                    assert(calls_view(tool_calls@) =~= seq![call@]);
                    out.push(ModelMessage::Model { content: String::new(), tool_calls });
                    assert(messages_view(out@) =~= history_step(h, m@));
                }
            },
            MessageRole::ExecResult => {
                let content = tool_result_content(m);
                out.push(ModelMessage::ToolResult { tool_call_id: m.tool_call_id.clone(), content });
                assert(messages_view(out@) =~= history_step(h, m@));
            },
        }
        i = i + 1;
    }
    proof {
        assert(ms.subrange(0, ms.len() as int) =~= ms);
    }
    out
}

// ---------------------------------------------------------------------------
// System prompt
// ---------------------------------------------------------------------------

/// The base system prompt bundled with the application.
pub const BUNDLED_SYSTEM_PROMPT: &'static str = "# SigmaRift System Instructions\n\nYou are a local system-facing agent running inside SigmaRift. Give direct,\naccurate, useful answers and state uncertainty when it matters.\n\n## Working Environment\n\nThe current working directory is the SigmaRift bundle root.\n\n- `workspace/` is your working area. Create, read, and modify task-specific\n  files there by default. Do not place user work in SigmaRift's source,\n  configuration, model, prompt, or session directories unless the user\n  explicitly asks for that location.\n- `playbooks/` contains user-managed Markdown playbooks. When a relevant\n  playbook is named or clearly applies to a task, inspect it before acting and\n  follow its applicable instructions.\n- `prompts/profiles/` contains selected profile instructions supplied as\n  separate system messages.\n- `sessions/` is SigmaRift's internal persistent conversation data. Do not\n  edit it with the execute tool.\n\n## Local Execution\n\nUse the `execute` tool only when host interaction is needed. It runs the full\ncommand line through `sh -c` and returns bounded stdout, stderr, and the native\nexit status.\n\nPrefer narrow commands with small output. Do not use broad system dumps when a\nfocused query exists. For example, use `hostname -I` or\n`ip -4 -o addr show scope global` for machine IP addresses instead of `ip addr`.\n\nWhen output is truncated, use a narrower command only when the conversation\nprovides a clear scope. Otherwise ask the user to specify the path, name,\npattern, range, or other criterion. Do not guess or repeat a broad command.\n\nExecution has a limited number of tool calls per user turn. When a result says\nthe limit was reached, answer with the available information or ask the user\nfor a narrower next step instead of calling the tool again.\n\nYou may use native OS tools when needed. Do not use `sudo` or install software:\nSigmaRift does not support interactive password prompts. If a task requires\nadministrator privileges or unavailable software, explain that limitation to\nthe user. After each tool result, decide whether another focused tool call is\nrequired or answer the user.\n";

pub const ADMINISTRATOR_CONTEXT: &'static str = "SigmaRift is running with administrator privileges. Commands already inherit them; do not use sudo.";

pub const UNPRIVILEGED_CONTEXT: &'static str = "SigmaRift is not running with administrator privileges; do not use sudo: interactive password prompts are unsupported. Tell the user when administrator privileges are required.";

/// Tells the model whether commands inherit administrator privileges.
pub fn execution_privilege_context(administrator: bool) -> (r: &'static str)
    ensures
        r@ == if administrator { ADMINISTRATOR_CONTEXT@ } else { UNPRIVILEGED_CONTEXT@ },
{
    if administrator {
        ADMINISTRATOR_CONTEXT
    } else {
        UNPRIVILEGED_CONTEXT
    }
}

/// The base prompt with the user's additional instructions appended after a blank line.
pub open spec fn combined_instructions(base: Seq<char>, instructions: Seq<char>) -> Seq<char> {
    if instructions.len() == 0 {
        base
    } else {
        base + "\n\n"@ + instructions
    }
}

/// Appends additional instructions without replacing the base prompt.
pub fn combine_system_instructions(base: String, instructions: String) -> (r: String)
    ensures
        r@ == combined_instructions(base@, instructions@),
{
    if instructions.unicode_len() == 0 {
        base
    } else {
        let mut out = base;
        out.append("\n\n");
        out.append(instructions.as_str());
        out
    }
}

/// The complete system prompt: base prompt, additional instructions, and the privilege context.
pub fn combined_system_prompt(base: String, instructions: String, administrator: bool) -> (r: String)
    ensures
        r@ == combined_instructions(base@, instructions@) + "\n\n"@ + (if administrator {
            ADMINISTRATOR_CONTEXT@
        } else {
            UNPRIVILEGED_CONTEXT@
        }),
{
    let mut out = combine_system_instructions(base, instructions);
    out.append("\n\n");
    out.append(execution_privilege_context(administrator));
    out
}

// ---------------------------------------------------------------------------
// Laws of sessions and prompts
// ---------------------------------------------------------------------------

/// Additional instructions never replace the base prompt: the base always comes first, and
/// without instructions it is the whole of it.
pub proof fn law_instructions_extend_the_base(base: Seq<char>, instructions: Seq<char>)
    ensures
        combined_instructions(base, instructions).subrange(0, base.len() as int) == base,
        instructions.len() == 0 ==> combined_instructions(base, instructions) == base,
        instructions.len() > 0 ==> combined_instructions(base, instructions).len() == base.len() + 2 + instructions.len(),
{
    reveal_strlit("\n\n");
    if instructions.len() > 0 {
        assert((base + "\n\n"@ + instructions).subrange(0, base.len() as int) =~= base);
    } else {
        assert(base.subrange(0, base.len() as int) =~= base);
    }
}

/// A session title never exceeds 48 characters.
pub proof fn law_titles_fit(content: Seq<char>)
    ensures
        title_of(content).len() <= 48,
{
    reveal_strlit("...");
}

/// Session identities are exactly the non-empty strings of ASCII letters, digits, `-` and
/// `_`: they can never name a file outside the sessions directory.
pub proof fn law_session_ids_stay_in_their_directory(id: Seq<char>)
    requires
        valid_session_id(id),
    ensures
        id.len() > 0,
        forall|i: int| 0 <= i < id.len() ==> id[i] != '/' && id[i] != '.' && id[i] != '\\',
{
    assert forall|i: int| 0 <= i < id.len() implies id[i] != '/' && id[i] != '.' && id[i] != '\\' by {
        assert(is_id_char(id[i]));
    }
}

/// The tool calls of the commands a model message requests.
pub open spec fn requested_calls(es: Seq<StoredMessageSpec>) -> Seq<ToolCallSpec> {
    es.map_values(|e: StoredMessageSpec| ToolCallSpec { id: e.tool_call_id, command: e.content })
}

/// A model message and the commands it requests form one assistant message of the
/// history: its answer with every requested call, in order. Whatever came before, the
/// history grows by exactly that one message.
pub proof fn law_calls_join_the_model_message(
    prefix: Seq<ModelMessageSpec>,
    ms: Seq<StoredMessageSpec>,
    m: StoredMessageSpec,
    es: Seq<StoredMessageSpec>,
)
    requires
        m.role == MessageRole::Model,
        m.content.len() > 0,
        forall|i: int| 0 <= i < es.len() ==> (#[trigger] es[i]).role == MessageRole::Exec,
    ensures
        history(prefix, ms.push(m) + es) == history(prefix, ms).push(
            ModelMessageSpec::Model { content: m.content, tool_calls: requested_calls(es) },
        ),
    decreases es.len(),
{
    if es.len() == 0 {
        assert(ms.push(m) + es =~= ms.push(m));
        assert(ms.push(m).drop_last() =~= ms);
        assert(requested_calls(es) =~= Seq::<ToolCallSpec>::empty());
    } else {
        let rest = es.drop_last();
        assert forall|i: int| 0 <= i < rest.len() implies (#[trigger] rest[i]).role == MessageRole::Exec by {
            assert(rest[i] == es[i]);
        }
        law_calls_join_the_model_message(prefix, ms, m, rest);
        let all = ms.push(m) + es;
        assert(all.drop_last() =~= ms.push(m) + rest);
        assert(all.last() == es.last());
        let e = es.last();
        assert(e.role == MessageRole::Exec);
        assert(requested_calls(es) =~= requested_calls(rest).push(ToolCallSpec { id: e.tool_call_id, command: e.content }));
    }
}

/// A command with no model message before it in the history opens an assistant message
/// of its own, holding just its call; after a model message it adds no message.
pub proof fn law_a_lone_call_opens_a_message(prefix: Seq<ModelMessageSpec>, ms: Seq<StoredMessageSpec>, e: StoredMessageSpec)
    requires
        e.role == MessageRole::Exec,
    ensures
        ({
            let before = history(prefix, ms);
            let after = history(prefix, ms.push(e));
            &&& (before.len() == 0 || !(before.last() is Model)) ==> after == before.push(
                ModelMessageSpec::Model { content: Seq::empty(), tool_calls: seq![ToolCallSpec { id: e.tool_call_id, command: e.content }] },
            )
            &&& (before.len() > 0 && before.last() is Model) ==> after.len() == before.len()
                && after.subrange(0, before.len() - 1) == before.subrange(0, before.len() - 1)
        }),
{
    assert(ms.push(e).drop_last() =~= ms);
    let before = history(prefix, ms);
    let after = history(prefix, ms.push(e));
    if before.len() > 0 && before.last() is Model {
        assert(after.subrange(0, before.len() - 1) =~= before.subrange(0, before.len() - 1));
    }
}

} // verus!
