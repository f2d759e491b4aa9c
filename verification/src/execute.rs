//! Limits and results of model-requested local execution: bounded output capture,
//! the supervision decisions of a running command, and the reported status.
use vstd::prelude::*;
use vstd::utf8::{decode_utf8, valid_utf8};
use std::collections::VecDeque;

use crate::text::{decimal, push_decimal, signed_decimal};

verus! {

/// Runtime-wide limits for model-requested local execution.
#[derive(Debug, Clone, PartialEq, Eq)]
pub struct ExecutionSettings {
    pub timeout_seconds: u64,
    pub max_stdout_bytes: usize,
    pub max_stderr_bytes: usize,
    pub max_tool_calls_per_turn: usize,
}

pub fn default_timeout_seconds() -> (r: u64)
    ensures
        r == 30,
{
    30
}

pub fn default_max_stdout_bytes() -> (r: usize)
    ensures
        r == 2048,
{
    2 * 1024
}

pub fn default_max_stderr_bytes() -> (r: usize)
    ensures
        r == 1024,
{
    1024
}

pub fn default_max_tool_calls_per_turn() -> (r: usize)
    ensures
        r == 8,
{
    8
}

impl Default for ExecutionSettings {
    fn default() -> (r: ExecutionSettings)
        ensures
            r.timeout_seconds == 30,
            r.max_stdout_bytes == 2048,
            r.max_stderr_bytes == 1024,
            r.max_tool_calls_per_turn == 8,
    {
        ExecutionSettings {
            timeout_seconds: default_timeout_seconds(),
            max_stdout_bytes: default_max_stdout_bytes(),
            max_stderr_bytes: default_max_stderr_bytes(),
            max_tool_calls_per_turn: default_max_tool_calls_per_turn(),
        }
    }
}

impl ExecutionSettings {
    pub fn duplicate(&self) -> (r: ExecutionSettings)
        ensures
            r == *self,
    {
        ExecutionSettings {
            timeout_seconds: self.timeout_seconds,
            max_stdout_bytes: self.max_stdout_bytes,
            max_stderr_bytes: self.max_stderr_bytes,
            max_tool_calls_per_turn: self.max_tool_calls_per_turn,
        }
    }

    /// The timeout actually applied: never shorter than one second.
    pub fn effective_timeout_seconds(&self) -> (r: u64)
        ensures
            r == if self.timeout_seconds < 1 { 1 } else { self.timeout_seconds },
    {
        if self.timeout_seconds < 1 { 1 } else { self.timeout_seconds }
    }

    /// The capture limit applied to standard output: never below one byte.
    pub fn stdout_limit(&self) -> (r: usize)
        ensures
            r == if self.max_stdout_bytes < 1 { 1 } else { self.max_stdout_bytes },
    {
        if self.max_stdout_bytes < 1 { 1 } else { self.max_stdout_bytes }
    }

    /// The capture limit applied to standard error: never below one byte.
    pub fn stderr_limit(&self) -> (r: usize)
        ensures
            r == if self.max_stderr_bytes < 1 { 1 } else { self.max_stderr_bytes },
    {
        if self.max_stderr_bytes < 1 { 1 } else { self.max_stderr_bytes }
    }
}

/// The bounded outcome of one local shell command.
#[derive(Debug, Clone, PartialEq, Eq)]
pub struct ExecResult {
    pub stdout: String,
    pub stderr: String,
    pub status: String,
    pub exit_code: Option<i32>,
    pub duration_ms: u128,
    pub timed_out: bool,
}

pub struct ExecResultSpec {
    pub stdout: Seq<char>,
    pub stderr: Seq<char>,
    pub status: Seq<char>,
    pub exit_code: Option<i32>,
    pub duration_ms: u128,
    pub timed_out: bool,
}

impl View for ExecResult {
    type V = ExecResultSpec;

    open spec fn view(&self) -> ExecResultSpec {
        ExecResultSpec {
            stdout: self.stdout@,
            stderr: self.stderr@,
            status: self.status@,
            exit_code: self.exit_code,
            duration_ms: self.duration_ms,
            timed_out: self.timed_out,
        }
    }
}

// ---------------------------------------------------------------------------
// Bounded output capture
// ---------------------------------------------------------------------------

/// What `String::from_utf8_lossy` gives for a byte sequence.
pub uninterp spec fn utf8_lossy(bytes: Seq<u8>) -> Seq<char>;

/// Calls `String::from_utf8_lossy`. The contract claims that the result is the named
/// function of the bytes, and that valid UTF-8 decodes to exactly its characters.
#[verifier::external_body]
fn lossy_string(bytes: &[u8]) -> (r: String)
    ensures
        r@ == utf8_lossy(bytes@),
        valid_utf8(bytes@) ==> r@ == decode_utf8(bytes@),
{
    String::from_utf8_lossy(bytes).into_owned()
}

/// The number of leading bytes kept for a capture limit.
pub open spec fn head_limit(limit: nat) -> nat {
    limit * 2 / 3
}

/// The number of trailing bytes kept for a capture limit.
pub open spec fn tail_limit(limit: nat) -> nat {
    (limit - head_limit(limit)) as nat
}

/// The leading bytes of `stream` that a capture keeps.
pub open spec fn kept_head(stream: Seq<u8>, limit: nat) -> Seq<u8> {
    if stream.len() <= head_limit(limit) {
        stream
    } else {
        stream.subrange(0, head_limit(limit) as int)
    }
}

/// The trailing bytes of `stream` that a capture keeps after its head.
pub open spec fn kept_tail(stream: Seq<u8>, limit: nat) -> Seq<u8> {
    if stream.len() <= head_limit(limit) {
        Seq::empty()
    } else if stream.len() - tail_limit(limit) <= head_limit(limit) {
        stream.subrange(head_limit(limit) as int, stream.len() as int)
    } else {
        stream.subrange(stream.len() - tail_limit(limit), stream.len() as int)
    }
}

/// The note inserted between the head and the tail of truncated output.
pub open spec fn truncation_note(stream_name: Seq<char>, limit: nat, total: nat) -> Seq<char> {
    "\n\n["@ + stream_name + " truncated: showing first "@ + decimal(head_limit(limit))
        + " and last "@ + decimal(tail_limit(limit)) + " bytes of "@ + decimal(total)
        + " bytes. Narrow the command or ask the user to specify the scope.]\n\n"@
}

/// The captured text of a complete stream: all of it when it fits within the limit,
/// otherwise its head, a note that explains the truncation, and its tail.
pub open spec fn captured_text(stream: Seq<u8>, limit: nat, stream_name: Seq<char>) -> Seq<char> {
    if stream.len() <= limit {
        utf8_lossy(stream)
    } else {
        utf8_lossy(kept_head(stream, limit)) + truncation_note(stream_name, limit, stream.len())
            + utf8_lossy(kept_tail(stream, limit))
    }
}

/// Keeps the first two thirds and the last third of a command's output stream,
/// counting every byte it sees.
pub struct OutputCapture {
    limit: usize,
    head_limit: usize,
    tail_limit: usize,
    head: Vec<u8>,
    tail: VecDeque<u8>,
    total: usize,
    stream: Ghost<Seq<u8>>,
}

impl View for OutputCapture {
    type V = Seq<u8>;

    /// The bytes seen so far.
    closed spec fn view(&self) -> Seq<u8> {
        self.stream@
    }
}

impl OutputCapture {
    /// The capture limit in bytes.
    pub closed spec fn limit(&self) -> nat {
        self.limit as nat
    }

    pub closed spec fn wf(&self) -> bool {
        &&& self.limit >= 1
        &&& self.head_limit == head_limit(self.limit as nat)
        &&& self.tail_limit == tail_limit(self.limit as nat)
        &&& self.tail_limit >= 1
        &&& self.total == self.stream@.len()
        &&& self.head@ == kept_head(self.stream@, self.limit as nat)
        &&& self.tail@ == kept_tail(self.stream@, self.limit as nat)
    }

    /// A capture that has seen nothing yet.
    pub fn new(limit: usize) -> (r: OutputCapture)
        requires
            limit >= 1,
        ensures
            r.wf(),
            r@ == Seq::<u8>::empty(),
            r.limit() == limit,
    {
        let head_limit = limit / 3 * 2 + (limit % 3) * 2 / 3;
        assert(head_limit == limit * 2 / 3) by (nonlinear_arith)
            requires
                head_limit == limit / 3 * 2 + (limit % 3) * 2 / 3,
        ;
        let tail_limit = limit - head_limit;
        OutputCapture {
            limit,
            head_limit,
            tail_limit,
            head: Vec::new(),
            tail: VecDeque::new(),
            total: 0,
            stream: Ghost(Seq::empty()),
        }
    }

    /// The number of bytes seen so far.
    pub fn total(&self) -> (r: usize)
        requires
            self.wf(),
        ensures
            r == self@.len(),
    {
        self.total
    }

    /// Records bytes read from the stream.
    pub fn push_bytes(&mut self, bytes: &[u8])
        requires
            old(self).wf(),
            old(self)@.len() + bytes@.len() <= usize::MAX,
        ensures
            final(self).wf(),
            final(self)@ == old(self)@ + bytes@,
            final(self).limit() == old(self).limit(),
    {
        let mut i: usize = 0;
        while i < bytes.len()
            invariant
                self.wf(),
                i <= bytes@.len(),
                self@ == old(self)@ + bytes@.subrange(0, i as int),
                self.limit() == old(self).limit(),
                old(self)@.len() + bytes@.len() <= usize::MAX,
            decreases bytes@.len() - i,
        {
            self.push_byte(bytes[i]);
            assert(bytes@.subrange(0, i + 1) =~= bytes@.subrange(0, i as int).push(bytes@[i as int]));
            i = i + 1;
        }
        assert(bytes@.subrange(0, bytes@.len() as int) =~= bytes@);
    }

    fn push_byte(&mut self, byte: u8)
        requires
            old(self).wf(),
            old(self)@.len() + 1 <= usize::MAX,
        ensures
            final(self).wf(),
            final(self)@ == old(self)@.push(byte),
            final(self).limit() == old(self).limit(),
    {
        let ghost s = self.stream@;
        let ghost s2 = s.push(byte);
        let ghost l = self.limit as nat;
        self.total = self.total + 1;
        if self.head.len() < self.head_limit {
            self.head.push(byte);
            proof {
                assert(s.len() < head_limit(l));
                assert(self.head@ =~= kept_head(s2, l));
                assert(kept_tail(s2, l) =~= Seq::<u8>::empty());
            }
        } else {
            if self.tail.len() == self.tail_limit {
                self.tail.pop_front();
            }
            self.tail.push_back(byte);
            proof {
                assert(s.len() >= head_limit(l));
                assert(kept_head(s2, l) =~= kept_head(s, l));
                assert(self.tail@ =~= kept_tail(s2, l));
            }
        }
        self.stream = Ghost(s2);
    }

    /// The captured text once the stream has ended.
    pub fn finish(&self, stream_name: &str) -> (r: String)
        requires
            self.wf(),
        ensures
            r@ == captured_text(self@, self.limit(), stream_name@),
            self@.len() <= self.limit() && valid_utf8(self@) ==> r@ == decode_utf8(self@),
    {
        let mut tail_bytes: Vec<u8> = Vec::new();
        let mut i: usize = 0;
        while i < self.tail.len()
            invariant
                self.wf(),
                i <= self.tail@.len(),
                tail_bytes@ == self.tail@.subrange(0, i as int),
            decreases self.tail@.len() - i,
        {
            tail_bytes.push(self.tail[i]);
            assert(self.tail@.subrange(0, i + 1) =~= self.tail@.subrange(0, i as int).push(
                self.tail@[i as int],
            ));
            i = i + 1;
        }
        assert(tail_bytes@ =~= self.tail@);
        let ghost s = self.stream@;
        let ghost l = self.limit as nat;
        if self.total <= self.limit {
            let mut all = self.head.clone();
            let mut tb = tail_bytes;
            all.append(&mut tb);
            proof {
                assert(all@ =~= s);
            }
            return lossy_string(all.as_slice());
        }
        let mut out = lossy_string(self.head.as_slice());
        out.append("\n\n[");
        out.append(stream_name);
        out.append(" truncated: showing first ");
        push_decimal(&mut out, self.head_limit as u128);
        out.append(" and last ");
        push_decimal(&mut out, self.tail_limit as u128);
        out.append(" bytes of ");
        push_decimal(&mut out, self.total as u128);
        out.append(" bytes. Narrow the command or ask the user to specify the scope.]\n\n");
        let tail_text = lossy_string(tail_bytes.as_slice());
        out.append(tail_text.as_str());
        proof {
            assert(out@ =~= captured_text(s, l, stream_name@));
        }
        out
    }
}

/// A capture loses nothing of a stream within its limit, and keeps exactly the first two
/// thirds and the last third of the limit, in bytes, of a longer stream.
pub proof fn law_capture_is_bounded(stream: Seq<u8>, limit: nat)
    ensures
        stream.len() <= limit ==> kept_head(stream, limit) + kept_tail(stream, limit) == stream,
        stream.len() > limit ==> {
            &&& kept_head(stream, limit) == stream.subrange(0, head_limit(limit) as int)
            &&& kept_tail(stream, limit) == stream.subrange(stream.len() - tail_limit(limit), stream.len() as int)
            &&& kept_head(stream, limit).len() + kept_tail(stream, limit).len() == limit
        },
{
    assert(head_limit(limit) <= limit) by (nonlinear_arith);
    if stream.len() <= limit {
        if stream.len() > head_limit(limit) {
            assert(stream.subrange(0, head_limit(limit) as int) + stream.subrange(
                head_limit(limit) as int,
                stream.len() as int,
            ) =~= stream);
        } else {
            assert(stream + Seq::<u8>::empty() =~= stream);
        }
    }
}

// ---------------------------------------------------------------------------
// Supervising a running command
// ---------------------------------------------------------------------------

/// What the supervisor of a running command does next.
#[derive(Debug, Clone, Copy, PartialEq, Eq)]
pub enum Supervision {
    /// The shell has exited: collect its output.
    Collect,
    /// The user interrupted the turn: stop the complete process group.
    Interrupt,
    /// The timeout elapsed: stop the complete process group.
    TimeOut,
    /// Nothing happened yet: wait briefly and check again.
    Wait,
}

/// Decides the next supervision step. An exit is noticed first, then an interruption,
/// then the timeout.
pub fn supervise(exited: bool, cancelled: bool, elapsed_ms: u128, settings: &ExecutionSettings) -> (r:
    Supervision)
    ensures
        exited ==> r == Supervision::Collect,
        !exited && cancelled ==> r == Supervision::Interrupt,
        !exited && !cancelled ==> (r == Supervision::TimeOut <==> elapsed_ms >= (if settings.timeout_seconds
            < 1 { 1 } else { settings.timeout_seconds }) * 1000),
        !exited && !cancelled && r != Supervision::TimeOut ==> r == Supervision::Wait,
{
    if exited {
        Supervision::Collect
    } else if cancelled {
        Supervision::Interrupt
    } else if elapsed_ms >= (settings.effective_timeout_seconds() as u128) * 1000 {
        Supervision::TimeOut
    } else {
        Supervision::Wait
    }
}

/// The status reported for a finished command.
pub open spec fn exec_status(
    interrupted: bool,
    timed_out: bool,
    timeout_seconds: u64,
    exit_status: Seq<char>,
) -> Seq<char> {
    if interrupted {
        "interrupted by user"@
    } else if timed_out {
        "timed out after "@ + decimal(timeout_seconds as nat) + " seconds"@
    } else {
        exit_status
    }
}

/// Assembles the result of a finished command. `ending` is the supervision step that ended
/// the wait, and `group_stopped` whether the process group was still running when it was
/// stopped for an interruption or a timeout (a group that had already exited keeps its
/// real status); `exit_status` is how the shell's exit status displays. A command is
/// reported as interrupted or as timed out, never both.
pub fn exec_result(
    stdout: String,
    stderr: String,
    ending: Supervision,
    group_stopped: bool,
    settings: &ExecutionSettings,
    exit_status: String,
    exit_code: Option<i32>,
    duration_ms: u128,
) -> (r: ExecResult)
    ensures
        r.stdout@ == stdout@,
        r.stderr@ == stderr@,
        r.status@ == exec_status(
            ending == Supervision::Interrupt && group_stopped,
            ending == Supervision::TimeOut && group_stopped,
            (if settings.timeout_seconds < 1 { 1 } else { settings.timeout_seconds }),
            exit_status@,
        ),
        r.exit_code == exit_code,
        r.duration_ms == duration_ms,
        r.timed_out == (ending == Supervision::TimeOut && group_stopped),
        r.timed_out ==> r.status@ == "timed out after "@ + decimal(
            (if settings.timeout_seconds < 1 { 1 } else { settings.timeout_seconds }) as nat,
        ) + " seconds"@,
        ending == Supervision::Interrupt ==> !r.timed_out,
{
    let (interrupted, timed_out) = match ending {
        Supervision::Interrupt => (group_stopped, false),
        Supervision::TimeOut => (false, group_stopped),
        _ => (false, false),
    };
    let status = if interrupted {
        String::from_str("interrupted by user")
    } else if timed_out {
        let mut s = String::from_str("timed out after ");
        push_decimal(&mut s, settings.effective_timeout_seconds() as u128);
        s.append(" seconds");
        s
    } else {
        exit_status
    };
    ExecResult { stdout, stderr, status, exit_code, duration_ms, timed_out }
}

/// The result recorded when a command could not be started.
pub fn failed_to_start(error: String) -> (r: ExecResult)
    ensures
        r.stdout@ == Seq::<char>::empty(),
        r.stderr@ == error@,
        r.status@ == "failed to start"@,
        r.exit_code is None,
        r.duration_ms == 0,
        !r.timed_out,
{
    ExecResult {
        stdout: String::new(),
        stderr: error,
        status: String::from_str("failed to start"),
        exit_code: None,
        duration_ms: 0,
        timed_out: false,
    }
}

} // verus!
