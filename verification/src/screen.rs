//! What the terminal screen shows, decided apart from drawing: labels fitted to rows, the
//! structure of the transcript, and the text of the information panels.
use vstd::prelude::*;

use crate::control::RuntimeView;
use crate::session::{AppSnapshot, MessageView, SessionSummary, SessionView, strings_view};
use crate::ui::{MainFocus, SamplingField, SessionCursor, session_ids};
use crate::json::{json_quote, json_string};
use crate::stream::{strip_line_ending, stripped_len};
use crate::text::{
    chars_of, decimal, decimal_string, eq_ignore_ascii_case, occurs_at, occurs_at_exec, push_chars, push_repeated,
    range_eq_ignore_ascii_case, skip_whitespace_back, skip_ws_back, starts_with, str_eq,
    string_from_range, trim_end,
};

verus! {

// ---------------------------------------------------------------------------
// The processing badge
// ---------------------------------------------------------------------------

/// Whether a message's role is the given role name.
pub open spec fn has_role(m: MessageView, role: Seq<char>) -> bool {
    m.role@ == role
}

/// Whether the model is working on input: a turn is active and the active session's last
/// message is the user's or a command result.
pub open spec fn processing_input(snapshot: AppSnapshot, turn_active: bool) -> bool {
    turn_active && match snapshot.active_session {
        Some(s) => s.messages@.len() > 0 && (has_role(s.messages@.last(), "user"@) || has_role(
            s.messages@.last(),
            "exec_result"@,
        )),
        None => false,
    }
}

/// Whether no model output follows the last user message.
pub open spec fn no_model_output_since_user(ms: Seq<MessageView>) -> bool
    decreases ms.len(),
{
    if ms.len() == 0 {
        true
    } else if has_role(ms.last(), "user"@) {
        true
    } else if has_role(ms.last(), "model"@) {
        false
    } else {
        no_model_output_since_user(ms.drop_last())
    }
}

/// Whether the processing badge marks the transcript.
pub fn processing_model_input(snapshot: &AppSnapshot, turn_active: bool) -> (r: bool)
    ensures
        r == processing_input(*snapshot, turn_active),
{
    if !turn_active {
        return false;
    }
    match &snapshot.active_session {
        Some(s) => {
            let n = s.messages.len();
            if n == 0 {
                false
            } else {
                str_eq(s.messages[n - 1].role.as_str(), "user") || str_eq(s.messages[n - 1].role.as_str(), "exec_result")
            }
        },
        None => false,
    }
}

/// Whether the pending model turn has produced no output yet, so that the model badge
/// must precede the processing badge.
pub fn pending_model_turn_has_no_output(snapshot: &AppSnapshot) -> (r: bool)
    ensures
        r == (match snapshot.active_session {
            Some(s) => no_model_output_since_user(s.messages@),
            None => false,
        }),
{
    match &snapshot.active_session {
        None => false,
        Some(s) => {
            let mut n = s.messages.len();
            proof {
                assert(s.messages@.subrange(0, n as int) =~= s.messages@);
            }
            while n > 0
                invariant
                    snapshot.active_session == Some(*s),
                    n <= s.messages@.len(),
                    no_model_output_since_user(s.messages@) == no_model_output_since_user(s.messages@.subrange(0, n as int)),
                decreases n,
            {
                let ghost prefix = s.messages@.subrange(0, n as int);
                proof {
                    assert(prefix.drop_last() =~= s.messages@.subrange(0, n - 1));
                    assert(prefix.last() == s.messages@[n - 1]);
                }
                let role = s.messages[n - 1].role.as_str();
                if str_eq(role, "user") {
                    return true;
                }
                if str_eq(role, "model") {
                    return false;
                }
                n = n - 1;
            }
            true
        },
    }
}

// ---------------------------------------------------------------------------
// Labels fitted to a row
// ---------------------------------------------------------------------------

/// The label shortened to `width` characters: a longer label keeps its first `width - 3`
/// characters followed by `...`; at most three cells show only dots.
pub open spec fn truncated(label: Seq<char>, width: nat) -> Seq<char> {
    if label.len() <= width {
        label
    } else if width <= 3 {
        Seq::new(width, |_i: int| '.')
    } else {
        label.subrange(0, width - 3) + seq!['.', '.', '.']
    }
}

/// Shortens a label to `available_width` characters.
pub fn truncate_label(label: &str, available_width: usize) -> (r: String)
    ensures
        r@ == truncated(label@, available_width as nat),
{
    let cs = chars_of(label);
    if cs.len() <= available_width {
        assert(cs@.subrange(0, cs@.len() as int) =~= cs@);
        return string_from_range(cs.as_slice(), 0, cs.len());
    }
    let mut out = String::new();
    if available_width <= 3 {
        push_repeated(&mut out, '.', available_width);
        assert(out@ =~= truncated(label@, available_width as nat));
        return out;
    }
    let kept = string_from_range(cs.as_slice(), 0, available_width - 3);
    out.append(kept.as_str());
    push_repeated(&mut out, '.', 3);
    proof {
        assert(Seq::new(3, |_i: int| '.') =~= seq!['.', '.', '.']);
    }
    out
}

/// The label fitted between one space of padding on each side of a row.
pub open spec fn padded(label: Seq<char>, row_width: nat) -> Seq<char> {
    seq![' '] + truncated(label, if row_width >= 2 { (row_width - 2) as nat } else { 0 }) + seq![' ']
}

/// Fits a label into a row of `row_width` cells with one space on each side.
pub fn padded_label(label: &str, row_width: u16) -> (r: String)
    ensures
        r@ == padded(label@, row_width as nat),
{
    let available: usize = if row_width >= 2 { (row_width - 2) as usize } else { 0 };
    let inner = truncate_label(label, available);
    let mut out = String::new();
    push_repeated(&mut out, ' ', 1);
    out.append(inner.as_str());
    push_repeated(&mut out, ' ', 1);
    proof {
        assert(Seq::new(1, |_i: int| ' ') =~= seq![' ']);
        assert(out@ =~= padded(label@, row_width as nat));
    }
    out
}

// ---------------------------------------------------------------------------
// Reasoning labels
// ---------------------------------------------------------------------------

/// The index of the first character at or after `i` that is neither a space nor a tab.
pub open spec fn skip_blanks(s: Seq<char>, i: int) -> int
    decreases s.len() - i,
{
    if 0 <= i < s.len() && (s[i] == ' ' || s[i] == '\t') {
        skip_blanks(s, i + 1)
    } else {
        i
    }
}

/// The sequence after its prefix `p`.
pub open spec fn after_prefix(s: Seq<char>, p: Seq<char>) -> Seq<char> {
    s.subrange(p.len() as int, s.len() as int)
}

/// The reasoning without a leading `Thinking Process:` or `Thinking:` label (after any
/// indentation of spaces and tabs), and without one line break or space that follows the
/// label; the indentation is kept. Reasoning without such a label is unchanged.
pub open spec fn unlabelled_reasoning(content: Seq<char>) -> Seq<char> {
    let k = skip_blanks(content, 0);
    let u = content.subrange(k, content.len() as int);
    let rest = if starts_with(u, "Thinking Process:"@) {
        Some(after_prefix(u, "Thinking Process:"@))
    } else if starts_with(u, "Thinking:"@) {
        Some(after_prefix(u, "Thinking:"@))
    } else {
        None
    };
    match rest {
        None => content,
        Some(r) => content.subrange(0, k) + if starts_with(r, seq!['\r', '\n']) {
            r.subrange(2, r.len() as int)
        } else if starts_with(r, seq!['\n']) {
            r.subrange(1, r.len() as int)
        } else if starts_with(r, seq![' ']) {
            r.subrange(1, r.len() as int)
        } else {
            r
        },
    }
}

proof fn lemma_skip_blanks(s: Seq<char>, i: int)
    requires
        0 <= i <= s.len(),
    ensures
        i <= skip_blanks(s, i) <= s.len(),
    decreases s.len() - i,
{
    if i < s.len() && (s[i] == ' ' || s[i] == '\t') {
        lemma_skip_blanks(s, i + 1);
    }
}

/// Removes a leading reasoning label without changing the body.
pub fn reasoning_without_label(content: &str) -> (r: String)
    ensures
        r@ == unlabelled_reasoning(content@),
{
    let cs = chars_of(content);
    let n = cs.len();
    let mut k: usize = 0;
    proof {
        lemma_skip_blanks(cs@, 0);
    }
    while k < n && (cs[k] == ' ' || cs[k] == '\t')
        invariant
            k <= n == cs@.len(),
            cs@ == content@,
            skip_blanks(cs@, k as int) == skip_blanks(cs@, 0),
        decreases n - k,
    {
        k = k + 1;
    }
    let ghost u = cs@.subrange(k as int, n as int);
    proof {
        reveal_strlit("Thinking Process:");
        reveal_strlit("Thinking:");
    }
    let start = if occurs_at_exec(cs.as_slice(), k, "Thinking Process:") {
        proof {
            assert(cs@.subrange(k as int, k + 17) =~= u.subrange(0, 17));
        }
        k + 17
    } else if occurs_at_exec(cs.as_slice(), k, "Thinking:") {
        proof {
            if k + 17 <= n {
                assert(cs@.subrange(k as int, k + 17) =~= u.subrange(0, 17));
            }
            assert(cs@.subrange(k as int, k + 9) =~= u.subrange(0, 9));
        }
        k + 9
    } else {
        proof {
            if k + 17 <= n {
                assert(cs@.subrange(k as int, k + 17) =~= u.subrange(0, 17));
            }
            if k + 9 <= n {
                assert(cs@.subrange(k as int, k + 9) =~= u.subrange(0, 9));
            }
        }
        assert(cs@.subrange(0, n as int) =~= cs@);
        return string_from_range(cs.as_slice(), 0, n);
    };
    let ghost r = cs@.subrange(start as int, n as int);
    proof {
        assert(r =~= if starts_with(u, "Thinking Process:"@) {
            after_prefix(u, "Thinking Process:"@)
        } else {
            after_prefix(u, "Thinking:"@)
        });
    }
    let body_start = if start < n && n - start >= 2 && cs[start] == '\r' && cs[start + 1] == '\n' {
        proof {
            assert(r.subrange(0, 2) =~= seq!['\r', '\n']);
        }
        start + 2
    } else if start < n && cs[start] == '\n' {
        proof {
            assert(r.subrange(0, 1) =~= seq!['\n']);
            if r.len() >= 2 {
                assert(r.subrange(0, 2) != seq!['\r', '\n']) by {
                    assert(r.subrange(0, 2)[0] == '\n');
                }
            }
        }
        start + 1
    } else if start < n && cs[start] == ' ' {
        proof {
            assert(r.subrange(0, 1) =~= seq![' ']);
            if r.len() >= 2 {
                assert(r.subrange(0, 2) != seq!['\r', '\n']) by {
                    assert(r.subrange(0, 2)[0] == ' ');
                }
            }
            assert(r.subrange(0, 1) != seq!['\n']) by {
                assert(r.subrange(0, 1)[0] == ' ');
            }
        }
        start + 1
    } else {
        proof {
            if r.len() >= 2 {
                assert(r.subrange(0, 2) != seq!['\r', '\n']) by {
                    if r.subrange(0, 2) == seq!['\r', '\n'] {
                        assert(r.subrange(0, 2)[0] == '\r');
                        assert(r.subrange(0, 2)[1] == '\n');
                    }
                }
            }
            if r.len() >= 1 {
                assert(r.subrange(0, 1) != seq!['\n']) by {
                    if r.subrange(0, 1) == seq!['\n'] {
                        assert(r.subrange(0, 1)[0] == '\n');
                    }
                }
                assert(r.subrange(0, 1) != seq![' ']) by {
                    if r.subrange(0, 1) == seq![' '] {
                        assert(r.subrange(0, 1)[0] == ' ');
                    }
                }
            }
        }
        start
    };
    let mut out = string_from_range(cs.as_slice(), 0, k);
    let tail = string_from_range(cs.as_slice(), body_start, n);
    out.append(tail.as_str());
    proof {
        assert(out@ =~= unlabelled_reasoning(content@));
    }
    out
}

// ---------------------------------------------------------------------------
// Markdown documents wrapped in a fence
// ---------------------------------------------------------------------------

/// The code fence marker.
pub open spec fn fence() -> Seq<char> {
    seq!['`', '`', '`']
}

/// The index of the last line feed before `j`.
pub open spec fn last_newline_before(t: Seq<char>, j: int) -> Option<int>
    decreases j,
{
    if j <= 0 || j > t.len() {
        None
    } else if t[j - 1] == '\n' {
        Some(j - 1)
    } else {
        last_newline_before(t, j - 1)
    }
}

/// The index of the first line feed in `t[p..end]`, or `end`.
pub open spec fn newline_in(t: Seq<char>, p: int, end: int) -> int
    decreases end - p,
{
    if p >= end || p < 0 || p >= t.len() {
        end
    } else if t[p] == '\n' {
        p
    } else {
        newline_in(t, p + 1, end)
    }
}

/// The index of the first fence that starts at or after `p`.
pub open spec fn next_fence(t: Seq<char>, p: int) -> Option<int>
    decreases t.len() - p,
{
    if p < 0 || p + 3 > t.len() {
        None
    } else if occurs_at(t, p, fence()) {
        Some(p)
    } else {
        next_fence(t, p + 1)
    }
}

/// The line without its trailing carriage returns.
pub open spec fn strip_carriage_returns(line: Seq<char>) -> Seq<char>
    decreases line.len(),
{
    if line.len() > 0 && line.last() == '\r' {
        strip_carriage_returns(line.drop_last())
    } else {
        line
    }
}

/// Whether a line opens a Markdown document: ```` ```markdown ```` or ```` ```md ````, in any
/// ASCII case, with trailing carriage returns ignored.
pub open spec fn opens_markdown(line: Seq<char>) -> bool {
    let l = strip_carriage_returns(line);
    eq_ignore_ascii_case(l, "```markdown"@) || eq_ignore_ascii_case(l, "```md"@)
}

/// The first fence at or after `p` that starts a line and opens a Markdown document on
/// a line that ends with a line feed: its index and the index of that line feed. Fences
/// are taken left to right without overlapping.
pub open spec fn wrapper_from(t: Seq<char>, p: int) -> Option<(int, int)>
    decreases t.len() - p,
{
    match next_fence(t, p) {
        None => None,
        Some(i) => if i < p || i + 3 > t.len() {
            None
        } else {
            let e = newline_in(t, i, t.len() as int);
            if (i == 0 || t[i - 1] == '\n') && e < t.len() && opens_markdown(t.subrange(i, e)) {
                Some((i, e))
            } else {
                wrapper_from(t, i + 3)
            }
        },
    }
}

/// The first line of `t[p..end]` (lines end at line feeds) that starts with a fence,
/// without its trailing whitespace.
pub open spec fn fence_line_in(t: Seq<char>, p: int, end: int) -> Option<Seq<char>>
    decreases end - p,
{
    if p < 0 || p >= end || end > t.len() {
        None
    } else {
        let e = newline_in(t, p, end);
        let line = trim_end(t.subrange(p, if e <= end { e } else { end }));
        if starts_with(line, fence()) {
            Some(line)
        } else if p <= e < end {
            fence_line_in(t, e + 1, end)
        } else {
            None
        }
    }
}

/// Where the wrapper of a Markdown document is: the content without its trailing line
/// breaks, the index of its last line feed, and the indices of the opening fence and of
/// the line feed that ends its line. `None` when the content's last line is not a bare
/// fence or no line opens a Markdown document.
pub open spec fn markdown_wrapper(content: Seq<char>) -> Option<(Seq<char>, int, int, int)> {
    let t = strip_line_ending(content);
    match last_newline_before(t, t.len() as int) {
        None => None,
        Some(l) => if t.subrange(l + 1, t.len() as int) != fence() {
            None
        } else {
            match wrapper_from(t, 0) {
                None => None,
                Some((ws, we)) => Some((t, l, ws, we)),
            }
        },
    }
}

/// Whether the wrapper's opening line is the document's last line break, so that there is
/// no document between the fences; such content has no unwrapped form.
pub open spec fn wrapper_is_empty(content: Seq<char>) -> bool {
    match markdown_wrapper(content) {
        Some((t, l, ws, we)) => we >= l,
        None => false,
    }
}

/// A model response wrapped whole in a ```` ```markdown ```` fence is unwrapped: the text
/// before the opening line and the document between the fences are kept. After an
/// introduction, the wrapper is removed only when the document holds a nested fenced
/// block with an info string; otherwise the content is an ordinary code example and stays.
pub open spec fn unwrapped_document(content: Seq<char>) -> Seq<char> {
    match markdown_wrapper(content) {
        None => content,
        Some((t, l, ws, we)) => if ws > 0 && match fence_line_in(t, we + 1, l) {
            None => true,
            Some(f) => f == fence(),
        } {
            content
        } else {
            t.subrange(0, ws) + t.subrange(we + 1, l)
        },
    }
}

proof fn lemma_last_newline(t: Seq<char>, j: int)
    requires
        0 <= j <= t.len(),
    ensures
        match last_newline_before(t, j) {
            Some(l) => 0 <= l < j && t[l] == '\n' && forall|k: int| l < k < j ==> t[k] != '\n',
            None => forall|k: int| 0 <= k < j ==> t[k] != '\n',
        },
    decreases j,
{
    if j > 0 && t[j - 1] != '\n' {
        lemma_last_newline(t, j - 1);
    }
}

/// Finds the first fence in `t` at or after `p`.
fn find_fence(t: &[char], p: usize) -> (r: Option<usize>)
    ensures
        match r {
            Some(i) => next_fence(t@, p as int) == Some(i as int) && p <= i && i + 3 <= t@.len(),
            None => next_fence(t@, p as int) is None,
        },
{
    proof {
        reveal_strlit("```");
        assert("```"@ =~= fence());
    }
    let mut i = p;
    while i < t.len() && t.len() - i >= 3
        invariant
            p <= i,
            "```"@ == fence(),
            next_fence(t@, p as int) == next_fence(t@, i as int),
        decreases t@.len() - i,
    {
        if occurs_at_exec(t, i, "```") {
            return Some(i);
        }
        i = i + 1;
    }
    None
}

/// The index of the first line feed in `t[p..end]`, or `end`.
fn find_newline(t: &[char], p: usize, end: usize) -> (r: usize)
    requires
        p <= end <= t@.len(),
    ensures
        r == newline_in(t@, p as int, end as int),
        p <= r <= end,
        forall|j: int| p <= j < r ==> t@[j] != '\n',
        r < end ==> t@[r as int] == '\n',
{
    let mut i = p;
    while i < end && t[i] != '\n'
        invariant
            p <= i <= end <= t@.len(),
            newline_in(t@, p as int, end as int) == newline_in(t@, i as int, end as int),
            forall|j: int| p <= j < i ==> t@[j] != '\n',
        decreases end - i,
    {
        i = i + 1;
    }
    i
}

/// The end of `t[lo..hi]` without its trailing carriage returns.
fn carriage_returns_start(t: &[char], lo: usize, hi: usize) -> (r: usize)
    requires
        lo <= hi <= t@.len(),
    ensures
        lo <= r <= hi,
        t@.subrange(lo as int, r as int) == strip_carriage_returns(t@.subrange(lo as int, hi as int)),
{
    let mut j = hi;
    while j > lo && t[j - 1] == '\r'
        invariant
            lo <= j <= hi <= t@.len(),
            strip_carriage_returns(t@.subrange(lo as int, j as int)) == strip_carriage_returns(t@.subrange(lo as int, hi as int)),
        decreases j,
    {
        proof {
            assert(t@.subrange(lo as int, j as int).drop_last() =~= t@.subrange(lo as int, j - 1));
        }
        j = j - 1;
    }
    j
}

/// The located wrapper of a Markdown document, as [`markdown_wrapper`] describes it.
fn locate_wrapper(content: &str) -> (r: Option<(Vec<char>, usize, usize, usize)>)
    ensures
        match r {
            Some((t, l, ws, we)) => markdown_wrapper(content@) == Some((t@, l as int, ws as int, we as int))
                && ws <= we < t@.len() && we <= l < t@.len() && t@[l as int] == '\n' && t@[we as int] == '\n',
            None => markdown_wrapper(content@) is None,
        },
{
    let cs = chars_of(content);
    let n = stripped_len(cs.as_slice());
    let text = string_from_range(cs.as_slice(), 0, n);
    let t = chars_of(text.as_str());
    let ghost ts = t@;
    assert(ts == strip_line_ending(content@));
    // The last line feed.
    let mut j = t.len();
    while j > 0 && t[j - 1] != '\n'
        invariant
            j <= t@.len(),
            t@ == ts,
            last_newline_before(ts, ts.len() as int) == last_newline_before(ts, j as int),
        decreases j,
    {
        j = j - 1;
    }
    if j == 0 {
        return None;
    }
    let l = j - 1;
    proof {
        reveal_strlit("```");
        assert("```"@ =~= fence());
    }
    let last_is_fence = t.len() - j == 3 && occurs_at_exec(t.as_slice(), j, "```");
    proof {
        if last_is_fence {
            assert(ts.subrange(j as int, ts.len() as int) =~= fence());
        } else if ts.len() - j == 3 {
            assert(ts.subrange(j as int, ts.len() as int) =~= ts.subrange(j as int, j + 3));
        }
    }
    if !last_is_fence {
        return None;
    }
    // The opening wrapper line.
    proof {
        lemma_last_newline(ts, ts.len() as int);
        assert(markdown_wrapper(content@) == (match wrapper_from(ts, 0) {
            None => None,
            Some((ws, we)) => Some((ts, l as int, ws, we)),
        }));
    }
    let mut p: usize = 0;
    loop
        invariant
            t@ == ts,
            l < ts.len(),
            ts[l as int] == '\n',
            forall|k: int| l < k < ts.len() ==> ts[k] != '\n',
            markdown_wrapper(content@) == (match wrapper_from(ts, 0) {
                None => None,
                Some((ws, we)) => Some((ts, l as int, ws, we)),
            }),
            p <= ts.len() + 3,
            wrapper_from(ts, 0) == wrapper_from(ts, p as int),
        decreases ts.len() + 3 - p,
    {
        let i = match find_fence(t.as_slice(), p) {
            None => return None,
            Some(i) => i,
        };
        let e = find_newline(t.as_slice(), i, t.len());
        let starts_line = i == 0 || t[i - 1] == '\n';
        if starts_line && e < t.len() {
            let k = carriage_returns_start(t.as_slice(), i, e);
            if range_eq_ignore_ascii_case(t.as_slice(), i, k, "```markdown") || range_eq_ignore_ascii_case(
                t.as_slice(),
                i,
                k,
                "```md",
            ) {
                return Some((t, l, i, e));
            }
        }
        p = i + 3;
    }
}

/// Whether the content's Markdown wrapper encloses no document (see [`wrapper_is_empty`]).
pub fn has_empty_markdown_wrapper(content: &str) -> (r: bool)
    ensures
        r == wrapper_is_empty(content@),
{
    match locate_wrapper(content) {
        Some((_t, l, _ws, we)) => we >= l,
        None => false,
    }
}

/// The first line of `t[p..end]` that starts with a fence, without trailing whitespace:
/// its start and end.
fn find_fence_line(t: &[char], p: usize, end: usize) -> (r: Option<(usize, usize)>)
    requires
        p <= end <= t@.len(),
    ensures
        match r {
            Some((a, b)) => fence_line_in(t@, p as int, end as int) == Some(t@.subrange(a as int, b as int)) && a <= b <= end,
            None => fence_line_in(t@, p as int, end as int) is None,
        },
{
    proof {
        reveal_strlit("```");
        assert("```"@ =~= fence());
    }
    let mut q = p;
    loop
        invariant
            p <= q <= end <= t@.len(),
            "```"@ == fence(),
            fence_line_in(t@, p as int, end as int) == fence_line_in(t@, q as int, end as int),
        decreases end - q,
    {
        if q >= end {
            return None;
        }
        let e = find_newline(t, q, end);
        let b = skip_whitespace_back(t, q, e);
        let ghost line = t@.subrange(q as int, b as int);
        proof {
            let seg = t@.subrange(q as int, e as int);
            assert(trim_end(seg) =~= line);
        }
        let starts = b - q >= 3 && occurs_at_exec(t, q, "```");
        proof {
            if starts {
                assert(line.subrange(0, 3) =~= t@.subrange(q as int, q + 3));
            } else if b - q >= 3 {
                assert(line.subrange(0, 3) =~= t@.subrange(q as int, q + 3));
            }
        }
        if starts {
            return Some((q, b));
        }
        if e >= end {
            return None;
        }
        q = e + 1;
    }
}

/// Removes a fence that wraps a whole Markdown document (see [`unwrapped_document`]).
pub fn unwrap_markdown_document(content: &str) -> (r: String)
    requires
        !wrapper_is_empty(content@),
    ensures
        r@ == unwrapped_document(content@),
{
    let (t, l, ws, we) = match locate_wrapper(content) {
        None => return String::from_str(content),
        Some(found) => found,
    };
    if ws > 0 {
        let keep = match find_fence_line(t.as_slice(), we + 1, l) {
            None => true,
            Some((a, b)) => {
                proof {
                    reveal_strlit("```");
                    assert("```"@ =~= fence());
                }
                let bare = b - a == 3 && occurs_at_exec(t.as_slice(), a, "```");
                proof {
                    if bare {
                        assert(t@.subrange(a as int, b as int) =~= fence());
                    } else if b - a == 3 {
                        assert(t@.subrange(a as int, b as int) =~= t@.subrange(a as int, a + 3));
                    }
                }
                bare
            },
        };
        if keep {
            return String::from_str(content);
        }
    }
    let mut out = string_from_range(t.as_slice(), 0, ws);
    let body = string_from_range(t.as_slice(), we + 1, l);
    out.append(body.as_str());
    out
}

// ---------------------------------------------------------------------------
// The transcript
// ---------------------------------------------------------------------------

/// One element of the transcript, from top to bottom. Text items hold the raw text that
/// the renderer styles; model text is Markdown whose document wrapper is removed first.
pub enum TranscriptItem {
    /// An empty line.
    Blank,
    /// A one-line notice in place of messages.
    Notice(String),
    UserBadge,
    /// The user's text, rendered as Markdown verbatim.
    UserText(String),
    ModelBadge,
    /// The reasoning badge, indented.
    ReasoningBadge,
    /// Reasoning without its label, rendered as indented Markdown.
    Reasoning(String),
    /// The model's answer, rendered as Markdown after unwrapping a document wrapper.
    ModelText(String),
    /// The command badge, indented.
    ExecBadge,
    /// The requested command as the tool call the model made, on an indented line.
    ExecCommand(String),
    /// The command result badge, indented.
    ExecResultBadge,
    /// Captured standard output, rendered as indented Markdown.
    ResultStdout(String),
    /// Captured standard error, rendered as indented Markdown.
    ResultStderr(String),
    /// The command status, on an indented line.
    ResultStatus(String),
    /// The processing badge, indented.
    ProcessingBadge,
}

/// The mathematical value of a [`TranscriptItem`].
pub enum ItemSpec {
    Blank,
    Notice(Seq<char>),
    UserBadge,
    UserText(Seq<char>),
    ModelBadge,
    ReasoningBadge,
    Reasoning(Seq<char>),
    ModelText(Seq<char>),
    ExecBadge,
    ExecCommand(Seq<char>),
    ExecResultBadge,
    ResultStdout(Seq<char>),
    ResultStderr(Seq<char>),
    ResultStatus(Seq<char>),
    ProcessingBadge,
}

impl View for TranscriptItem {
    type V = ItemSpec;

    open spec fn view(&self) -> ItemSpec {
        match self {
            TranscriptItem::Blank => ItemSpec::Blank,
            TranscriptItem::Notice(t) => ItemSpec::Notice(t@),
            TranscriptItem::UserBadge => ItemSpec::UserBadge,
            TranscriptItem::UserText(t) => ItemSpec::UserText(t@),
            TranscriptItem::ModelBadge => ItemSpec::ModelBadge,
            TranscriptItem::ReasoningBadge => ItemSpec::ReasoningBadge,
            TranscriptItem::Reasoning(t) => ItemSpec::Reasoning(t@),
            TranscriptItem::ModelText(t) => ItemSpec::ModelText(t@),
            TranscriptItem::ExecBadge => ItemSpec::ExecBadge,
            TranscriptItem::ExecCommand(t) => ItemSpec::ExecCommand(t@),
            TranscriptItem::ExecResultBadge => ItemSpec::ExecResultBadge,
            TranscriptItem::ResultStdout(t) => ItemSpec::ResultStdout(t@),
            TranscriptItem::ResultStderr(t) => ItemSpec::ResultStderr(t@),
            TranscriptItem::ResultStatus(t) => ItemSpec::ResultStatus(t@),
            TranscriptItem::ProcessingBadge => ItemSpec::ProcessingBadge,
        }
    }
}

/// The views of a sequence of transcript items.
pub open spec fn items_view(items: Seq<TranscriptItem>) -> Seq<ItemSpec> {
    items.map_values(|i: TranscriptItem| i@)
}

/// The tool call shown for a requested command.
pub open spec fn exec_command_text(command: Seq<char>) -> Seq<char> {
    "execute {\"command\":"@ + json_string(command) + "}"@
}

/// The items of one message, given whether a model turn is open (its badge was shown since
/// the last user message), and whether one is open after it. Consecutive model messages
/// and their commands share one badge.
pub open spec fn message_items(m: MessageView, open: bool) -> (Seq<ItemSpec>, bool) {
    if has_role(m, "user"@) {
        (seq![ItemSpec::Blank, ItemSpec::UserBadge, ItemSpec::UserText(m.content@)], false)
    } else if has_role(m, "model"@) {
        let badge = if open { Seq::empty() } else { seq![ItemSpec::ModelBadge] };
        let reasoning = if m.reasoning_content@.len() > 0 {
            seq![
                ItemSpec::Blank,
                ItemSpec::ReasoningBadge,
                ItemSpec::Reasoning(unlabelled_reasoning(m.reasoning_content@)),
                ItemSpec::Blank,
            ]
        } else {
            Seq::empty()
        };
        (seq![ItemSpec::Blank] + badge + reasoning + seq![ItemSpec::ModelText(m.content@)], true)
    } else if has_role(m, "exec"@) {
        (seq![ItemSpec::Blank, ItemSpec::ExecBadge, ItemSpec::ExecCommand(exec_command_text(m.content@))], open)
    } else if has_role(m, "exec_result"@) {
        let stdout = if m.content@.len() > 0 { seq![ItemSpec::ResultStdout(m.content@)] } else { Seq::empty() };
        let stderr = if m.reasoning_content@.len() > 0 {
            seq![ItemSpec::ResultStderr(m.reasoning_content@)]
        } else {
            Seq::empty()
        };
        let status = if m.status@.len() > 0 { seq![ItemSpec::ResultStatus(m.status@)] } else { Seq::empty() };
        (seq![ItemSpec::Blank, ItemSpec::ExecResultBadge] + stdout + stderr + status, open)
    } else {
        (seq![ItemSpec::Blank], open)
    }
}

/// The items of a sequence of messages, and whether a model turn is open after them.
pub open spec fn messages_items(ms: Seq<MessageView>) -> (Seq<ItemSpec>, bool)
    decreases ms.len(),
{
    if ms.len() == 0 {
        (Seq::empty(), false)
    } else {
        let (before, open) = messages_items(ms.drop_last());
        let (last, open2) = message_items(ms.last(), open);
        (before + last, open2)
    }
}

/// The transcript of the active session: its messages (or a notice), then the processing
/// badge while the model works on input, preceded by the model badge when the pending
/// turn has shown no output yet.
pub open spec fn transcript(snapshot: AppSnapshot, turn_active: bool) -> Seq<ItemSpec> {
    let body = match snapshot.active_session {
        Some(s) => if s.messages@.len() == 0 {
            seq![ItemSpec::Notice(" No messages in "@ + s.title@ + " yet."@)]
        } else {
            messages_items(s.messages@).0
        },
        None => seq![ItemSpec::Notice(" Create a session from the SESSIONS panel."@)],
    };
    if processing_input(snapshot, turn_active) {
        let badge = match snapshot.active_session {
            Some(s) => if no_model_output_since_user(s.messages@) {
                seq![ItemSpec::ModelBadge, ItemSpec::Blank]
            } else {
                Seq::empty()
            },
            None => Seq::empty(),
        };
        body + seq![ItemSpec::Blank] + badge + seq![ItemSpec::ProcessingBadge]
    } else {
        body
    }
}

fn push_item(items: &mut Vec<TranscriptItem>, item: TranscriptItem)
    ensures
        items_view(final(items)@) == items_view(old(items)@).push(item@),
{
    let ghost before = items@;
    items.push(item);
    assert(items_view(items@) =~= items_view(before).push(item@));
}

/// Appends the items of one message; returns whether a model turn is open after it.
fn push_message_items(items: &mut Vec<TranscriptItem>, m: &MessageView, open: bool) -> (r: bool)
    ensures
        items_view(final(items)@) == items_view(old(items)@) + message_items(*m, open).0,
        r == message_items(*m, open).1,
{
    let ghost before = items_view(items@);
    proof {
        reveal_strlit("user");
        reveal_strlit("model");
        reveal_strlit("exec");
        reveal_strlit("exec_result");
    }
    let role = m.role.as_str();
    push_item(items, TranscriptItem::Blank);
    if str_eq(role, "user") {
        push_item(items, TranscriptItem::UserBadge);
        push_item(items, TranscriptItem::UserText(m.content.clone()));
        assert(items_view(items@) =~= before + message_items(*m, open).0);
        false
    } else if str_eq(role, "model") {
        if !open {
            push_item(items, TranscriptItem::ModelBadge);
        }
        if m.reasoning_content.unicode_len() > 0 {
            push_item(items, TranscriptItem::Blank);
            push_item(items, TranscriptItem::ReasoningBadge);
            push_item(items, TranscriptItem::Reasoning(reasoning_without_label(m.reasoning_content.as_str())));
            push_item(items, TranscriptItem::Blank);
        }
        push_item(items, TranscriptItem::ModelText(m.content.clone()));
        assert(items_view(items@) =~= before + message_items(*m, open).0);
        true
    } else if str_eq(role, "exec") {
        push_item(items, TranscriptItem::ExecBadge);
        let mut text = String::from_str("execute {\"command\":");
        let quoted = json_quote(m.content.as_str());
        text.append(quoted.as_str());
        text.append("}");
        push_item(items, TranscriptItem::ExecCommand(text));
        assert(items_view(items@) =~= before + message_items(*m, open).0);
        open
    } else if str_eq(role, "exec_result") {
        push_item(items, TranscriptItem::ExecResultBadge);
        if m.content.unicode_len() > 0 {
            push_item(items, TranscriptItem::ResultStdout(m.content.clone()));
        }
        if m.reasoning_content.unicode_len() > 0 {
            push_item(items, TranscriptItem::ResultStderr(m.reasoning_content.clone()));
        }
        if m.status.unicode_len() > 0 {
            push_item(items, TranscriptItem::ResultStatus(m.status.clone()));
        }
        assert(items_view(items@) =~= before + message_items(*m, open).0);
        open
    } else {
        assert(items_view(items@) =~= before + message_items(*m, open).0);
        open
    }
}

/// The transcript of the active session, from top to bottom.
pub fn transcript_items(snapshot: &AppSnapshot, turn_active: bool) -> (r: Vec<TranscriptItem>)
    ensures
        items_view(r@) == transcript(*snapshot, turn_active),
{
    let mut items: Vec<TranscriptItem> = Vec::new();
    proof {
        assert(items_view(items@) =~= Seq::<ItemSpec>::empty());
    }
    match &snapshot.active_session {
        Some(s) => {
            if s.messages.len() == 0 {
                let mut notice = String::from_str(" No messages in ");
                notice.append(s.title.as_str());
                notice.append(" yet.");
                push_item(&mut items, TranscriptItem::Notice(notice));
            } else {
                let mut open = false;
                let mut i: usize = 0;
                while i < s.messages.len()
                    invariant
                        i <= s.messages@.len(),
                        items_view(items@) == messages_items(s.messages@.subrange(0, i as int)).0,
                        open == messages_items(s.messages@.subrange(0, i as int)).1,
                    decreases s.messages@.len() - i,
                {
                    proof {
                        assert(s.messages@.subrange(0, i + 1).drop_last() =~= s.messages@.subrange(0, i as int));
                    }
                    open = push_message_items(&mut items, &s.messages[i], open);
                    i = i + 1;
                }
                proof {
                    assert(s.messages@.subrange(0, s.messages@.len() as int) =~= s.messages@);
                }
            }
        },
        None => {
            push_item(&mut items, TranscriptItem::Notice(String::from_str(" Create a session from the SESSIONS panel.")));
        },
    }
    let ghost body = items_view(items@);
    assert(body == match snapshot.active_session {
        Some(s) => if s.messages@.len() == 0 {
            seq![ItemSpec::Notice(" No messages in "@ + s.title@ + " yet."@)]
        } else {
            messages_items(s.messages@).0
        },
        None => seq![ItemSpec::Notice(" Create a session from the SESSIONS panel."@)],
    });
    if processing_model_input(snapshot, turn_active) {
        push_item(&mut items, TranscriptItem::Blank);
        if pending_model_turn_has_no_output(snapshot) {
            push_item(&mut items, TranscriptItem::ModelBadge);
            push_item(&mut items, TranscriptItem::Blank);
        }
        push_item(&mut items, TranscriptItem::ProcessingBadge);
        assert(items_view(items@) =~= transcript(*snapshot, turn_active));
    }
    items
}

// ---------------------------------------------------------------------------
// The session rail and the information panels
// ---------------------------------------------------------------------------

/// The row selected in the stored-session list: the cursor's session (the first row when
/// its identity is not listed); none on the new-session action.
pub fn rail_selection(snapshot: &AppSnapshot, cursor: &SessionCursor) -> (r: Option<usize>)
    ensures
        r == (match cursor@ {
            Some(id) => Some(match session_ids(*snapshot).index_of_first(id) {
                Some(i) => i as usize,
                None => 0usize,
            }),
            None => None::<usize>,
        }),
{
    match cursor {
        SessionCursor::NewSession => None,
        SessionCursor::Session(id) => {
            let ghost ids = session_ids(*snapshot);
            let mut i: usize = 0;
            while i < snapshot.sessions.len()
                invariant
                    i <= snapshot.sessions@.len(),
                    cursor@ == Some(id@),
                    ids == session_ids(*snapshot),
                    forall|j: int| 0 <= j < i ==> ids[j] != id@,
                decreases snapshot.sessions@.len() - i,
            {
                if str_eq(snapshot.sessions[i].id.as_str(), id.as_str()) {
                    proof {
                        ids.index_of_first_ensures(id@);
                        assert(ids[i as int] == id@);
                        assert(ids.contains(id@));
                        let f = ids.index_of_first(id@)->Some_0;
                        assert(f == i) by {
                            if f < i {
                                assert(ids[f] != id@);
                            }
                        }
                    }
                    return Some(i);
                }
                i = i + 1;
            }
            proof {
                ids.index_of_first_ensures(id@);
                assert(!ids.contains(id@));
            }
            Some(0)
        },
    }
}

/// The text of a stored session's row, before it is fitted.
pub fn session_row_text(title: &str) -> (r: String)
    ensures
        r@ == "❏  "@ + title@,
{
    let mut out = String::from_str("❏  ");
    out.append(title);
    out
}

/// Whether the listed session is the active one.
pub fn is_active_row(snapshot: &AppSnapshot, summary: &SessionSummary) -> (r: bool)
    ensures
        r == (snapshot.active_session matches Some(a) && a.id@ == summary.id@),
{
    match &snapshot.active_session {
        Some(a) => str_eq(a.id.as_str(), summary.id.as_str()),
        None => false,
    }
}

/// The tokens used by the last request: prompt and completion, added without overflow.
pub open spec fn used_tokens(runtime: RuntimeView) -> Option<nat> {
    match (runtime.prompt_tokens, runtime.completion_tokens) {
        (Some(p), Some(c)) => Some(if p + c > u32::MAX { u32::MAX as nat } else { (p + c) as nat }),
        _ => None,
    }
}

/// The model name shown on the runtime panel.
pub fn runtime_model_text(runtime: &RuntimeView) -> (r: String)
    ensures
        r@ == (match runtime.model_name {
            Some(n) => truncated(n@, 22),
            None => seq!['-'],
        }),
{
    match &runtime.model_name {
        Some(n) => truncate_label(n.as_str(), 22),
        None => {
            let r = String::from_str("-");
            proof {
                reveal_strlit("-");
            }
            r
        },
    }
}

/// The context usage shown on the runtime panel: `used / size`, with `-` before any usage.
pub fn context_usage_text(runtime: &RuntimeView) -> (r: String)
    ensures
        r@ == (match used_tokens(*runtime) {
            Some(u) => decimal(u) + " / "@ + decimal(runtime.context_size as nat),
            None => "- / "@ + decimal(runtime.context_size as nat),
        }),
{
    let mut out = match (runtime.prompt_tokens, runtime.completion_tokens) {
        (Some(p), Some(c)) => decimal_string(p.saturating_add(c) as u128),
        _ => String::from_str("-"),
    };
    proof {
        reveal_strlit("-");
    }
    let size = decimal_string(runtime.context_size as u128);
    out.append(" / ");
    out.append(size.as_str());
    proof {
        match used_tokens(*runtime) {
            Some(u) => {},
            None => {
                assert(seq!['-'] + " / "@ + decimal(runtime.context_size as nat) =~= "- / "@ + decimal(runtime.context_size as nat)) by {
                    reveal_strlit("- / ");
                    reveal_strlit(" / ");
                }
            },
        }
    }
    out
}

/// The context left, shown on the runtime panel: `-` before any usage.
pub fn context_left_text(runtime: &RuntimeView) -> (r: String)
    ensures
        r@ == (match used_tokens(*runtime) {
            Some(u) => decimal(if runtime.context_size >= u { (runtime.context_size - u) as nat } else { 0 }),
            None => seq!['-'],
        }),
{
    proof {
        reveal_strlit("-");
    }
    match (runtime.prompt_tokens, runtime.completion_tokens) {
        (Some(p), Some(c)) => decimal_string(runtime.context_size.saturating_sub(p.saturating_add(c)) as u128),
        _ => String::from_str("-"),
    }
}

/// Whether the runtime status is shown as ready.
pub fn runtime_is_ready(status: &str) -> (r: bool)
    ensures
        r == (status@ == "READY"@),
{
    str_eq(status, "READY")
}

/// A row of the profile list: a check mark when the active session selects the profile.
pub fn profile_row_text(snapshot: &AppSnapshot, name: &str) -> (r: String)
    ensures
        r@ == " ["@ + (if (snapshot.active_session matches Some(a) && strings_view(a.profiles@).contains(name@)) {
            seq!['x']
        } else {
            seq![' ']
        }) + "] "@ + name@,
{
    let checked = match &snapshot.active_session {
        Some(a) => {
            let mut found = false;
            let mut i: usize = 0;
            while i < a.profiles.len()
                invariant
                    i <= a.profiles@.len(),
                    found == exists|j: int| 0 <= j < i && a.profiles@[j]@ == name@,
                decreases a.profiles@.len() - i,
            {
                if str_eq(a.profiles[i].as_str(), name) {
                    found = true;
                }
                i = i + 1;
            }
            proof {
                let ps = strings_view(a.profiles@);
                if found {
                    let j = choose|j: int| 0 <= j < i && a.profiles@[j]@ == name@;
                    assert(ps[j] == name@);
                } else {
                    assert forall|j: int| 0 <= j < ps.len() implies ps[j] != name@ by {
                        assert(ps[j] == a.profiles@[j]@);
                    }
                }
            }
            found
        },
        None => false,
    };
    let mut out = String::from_str(" [");
    out.append(if checked { "x" } else { " " });
    out.append("] ");
    out.append(name);
    proof {
        reveal_strlit("x");
        reveal_strlit(" ");
    }
    out
}

/// The title shown when confirming a deletion: the listed session's title, or
/// `this session` when it is not listed.
pub fn delete_title(snapshot: &AppSnapshot, id: &str) -> (r: String)
    ensures
        r@ == " "@ + (match session_ids(*snapshot).index_of_first(id@) {
            Some(i) => snapshot.sessions@[i].title@,
            None => "this session"@,
        }),
{
    let ghost ids = session_ids(*snapshot);
    let mut out = String::from_str(" ");
    let mut i: usize = 0;
    while i < snapshot.sessions.len()
        invariant
            i <= snapshot.sessions@.len(),
            ids == session_ids(*snapshot),
            out@ == " "@,
            forall|j: int| 0 <= j < i ==> ids[j] != id@,
        decreases snapshot.sessions@.len() - i,
    {
        if str_eq(snapshot.sessions[i].id.as_str(), id) {
            proof {
                ids.index_of_first_ensures(id@);
                assert(ids[i as int] == id@);
                assert(ids.contains(id@));
                let f = ids.index_of_first(id@)->Some_0;
                assert(f == i) by {
                    if f < i {
                        assert(ids[f] != id@);
                    }
                }
            }
            out.append(snapshot.sessions[i].title.as_str());
            return out;
        }
        i = i + 1;
    }
    proof {
        ids.index_of_first_ensures(id@);
        assert(!ids.contains(id@));
    }
    out.append("this session");
    out
}

/// The action named on an error dialog's shortcuts.
pub fn error_close_label(exit_on_close: bool) -> (r: &'static str)
    ensures
        r@ == (if exit_on_close { "Exit"@ } else { "Close"@ }),
{
    if exit_on_close {
        "Exit"
    } else {
        "Close"
    }
}

/// The row highlighted in the model selector: the cursor, kept on the list.
pub fn model_select_row(cursor: usize, count: usize) -> (r: usize)
    ensures
        r == (if count == 0 { 0 } else if cursor < count { cursor } else { (count - 1) as usize }),
{
    if count == 0 {
        0
    } else if cursor < count {
        cursor
    } else {
        count - 1
    }
}

/// The width of the key column of the shortcut panels.
pub const KEY_COLUMN_WIDTH: usize = 16;

/// The spaces that align a shortcut's action after its key.
pub fn shortcut_padding(key: &str) -> (r: String)
    ensures
        r@ == Seq::new(if key@.len() < KEY_COLUMN_WIDTH { (KEY_COLUMN_WIDTH - key@.len()) as nat } else { 0 }, |_i: int| ' '),
{
    let n = key.unicode_len();
    let mut out = String::new();
    push_repeated(&mut out, ' ', if n < KEY_COLUMN_WIDTH { KEY_COLUMN_WIDTH - n } else { 0 });
    assert(out@ =~= Seq::new(if key@.len() < KEY_COLUMN_WIDTH { (KEY_COLUMN_WIDTH - key@.len()) as nat } else { 0 }, |_i: int| ' '));
    out
}

/// The shortcuts listed for the focused region, as key and action.
pub fn shortcuts(focus: MainFocus) -> (r: Vec<(&'static str, &'static str)>)
    ensures
        r@.len() == match focus {
            MainFocus::Sessions => 7nat,
            MainFocus::Session => 6nat,
            MainFocus::Input => 4nat,
        },
        r@[0].0@ == "[ Tab ]"@ && r@[0].1@ == "Switch panels"@,
        r@[r@.len() - 3].0@ == "[ Ctrl+Space ]"@ && r@[r@.len() - 3].1@ == "Control menu"@,
        r@[r@.len() - 2].0@ == "[ Ctrl+C ]"@ && r@[r@.len() - 2].1@ == "Interrupt active work"@,
        r@[r@.len() - 1].0@ == "[ Esc ]"@ && r@[r@.len() - 1].1@ == "Exit"@,
        focus == MainFocus::Sessions ==> {
            &&& r@[1].0@ == "[ ↑ ] [ ↓ ]"@ && r@[1].1@ == "Navigate"@
            &&& r@[2].0@ == "[ Enter ]"@ && r@[2].1@ == "Select"@
            &&& r@[3].0@ == "[ Delete ]"@ && r@[3].1@ == "Delete session"@
        },
        focus == MainFocus::Session ==> {
            &&& r@[1].0@ == "[ ↑ ] [ ↓ ]"@ && r@[1].1@ == "Scroll transcript"@
            &&& r@[2].0@ == "[ End ]"@ && r@[2].1@ == "Latest output"@
        },
{
    let mut lines: Vec<(&'static str, &'static str)> = Vec::new();
    lines.push(("[ Tab ]", "Switch panels"));
    if focus == MainFocus::Sessions {
        lines.push(("[ ↑ ] [ ↓ ]", "Navigate"));
        lines.push(("[ Enter ]", "Select"));
        lines.push(("[ Delete ]", "Delete session"));
    }
    if focus == MainFocus::Session {
        lines.push(("[ ↑ ] [ ↓ ]", "Scroll transcript"));
        lines.push(("[ End ]", "Latest output"));
    }
    lines.push(("[ Ctrl+Space ]", "Control menu"));
    lines.push(("[ Ctrl+C ]", "Interrupt active work"));
    lines.push(("[ Esc ]", "Exit"));
    lines
}

/// The label of a row of the LLM parameters overlay.
pub fn field_label(field: SamplingField, advanced: bool) -> (r: &'static str)
    ensures
        r@ == match field {
            SamplingField::Temperature => "Temperature"@,
            SamplingField::MaxTokens => "Max tokens"@,
            SamplingField::TopP => "Top P"@,
            SamplingField::TopK => "Top K"@,
            SamplingField::MinP => "Min P"@,
            SamplingField::RepeatPenalty => "Repeat penalty"@,
            SamplingField::Advanced => if advanced { "Advanced ▲"@ } else { "Advanced..."@ },
            SamplingField::Seed => "Seed"@,
            SamplingField::RepeatLastN => "Repeat last N"@,
            SamplingField::PresencePenalty => "Presence penalty"@,
            SamplingField::FrequencyPenalty => "Frequency penalty"@,
            SamplingField::StopSequences => "Stop sequences"@,
            SamplingField::Grammar => "Grammar / JSON"@,
        },
{
    match field {
        SamplingField::Temperature => "Temperature",
        SamplingField::MaxTokens => "Max tokens",
        SamplingField::TopP => "Top P",
        SamplingField::TopK => "Top K",
        SamplingField::MinP => "Min P",
        SamplingField::RepeatPenalty => "Repeat penalty",
        SamplingField::Advanced => if advanced { "Advanced ▲" } else { "Advanced..." },
        SamplingField::Seed => "Seed",
        SamplingField::RepeatLastN => "Repeat last N",
        SamplingField::PresencePenalty => "Presence penalty",
        SamplingField::FrequencyPenalty => "Frequency penalty",
        SamplingField::StopSequences => "Stop sequences",
        SamplingField::Grammar => "Grammar / JSON",
    }
}

/// The rows of the control menu, as label and accelerator.
pub fn control_rows() -> (r: Vec<(&'static str, &'static str)>)
    ensures
        r@.len() == 4,
        r@[0].0@ == "LLM Parameters"@ && r@[0].1@ == "M"@,
        r@[1].0@ == "Additional Instructions"@ && r@[1].1@ == "I"@,
        r@[2].0@ == "Profiles"@ && r@[2].1@ == "F"@,
        r@[3].0@ == "Quit"@ && r@[3].1@ == "Q"@,
{
    vec![("LLM Parameters", "M"), ("Additional Instructions", "I"), ("Profiles", "F"), ("Quit", "Q")]
}

/// The number of terminal rows that lines of the given display widths fill when wrapped
/// at `width` cells; an empty line fills one row.
pub open spec fn wrapped_rows(widths: Seq<usize>, width: nat) -> nat
    decreases widths.len(),
{
    if widths.len() == 0 || width == 0 {
        0
    } else {
        let w = if widths.last() >= 1 { widths.last() as nat } else { 1 };
        wrapped_rows(widths.drop_last(), width) + ((w + width - 1) / (width as int)) as nat
    }
}

/// Counts the rows a wrapped paragraph fills; zero for a zero width.
pub fn wrapped_line_count(widths: &[usize], width: u16) -> (r: usize)
    requires
        wrapped_rows(widths@, width as nat) <= usize::MAX,
    ensures
        r == wrapped_rows(widths@, width as nat),
{
    if width == 0 {
        return 0;
    }
    let w = width as usize;
    let mut total: usize = 0;
    let mut i: usize = 0;
    while i < widths.len()
        invariant
            i <= widths@.len(),
            w == width as usize,
            w >= 1,
            total == wrapped_rows(widths@.subrange(0, i as int), w as nat),
            wrapped_rows(widths@, w as nat) <= usize::MAX,
        decreases widths@.len() - i,
    {
        proof {
            assert(widths@.subrange(0, i + 1).drop_last() =~= widths@.subrange(0, i as int));
            lemma_wrapped_rows_prefix(widths@, i + 1, w as nat);
        }
        let line = if widths[i] >= 1 { widths[i] } else { 1 };
        let ghost expected = (line + w - 1) / (w as int);
        proof {
            assert(line / w + (if line % w == 0 { 0int } else { 1int }) == expected) by (nonlinear_arith)
                requires
                    w >= 1,
                    expected == (line + w - 1) / (w as int),
            ;
            assert(total + expected <= usize::MAX);
        }
        let q = line / w;
        let rows = if line % w == 0 { q } else { q + 1 };
        total = total + rows;
        i = i + 1;
    }
    proof {
        assert(widths@.subrange(0, widths@.len() as int) =~= widths@);
    }
    total
}

proof fn lemma_wrapped_rows_prefix(widths: Seq<usize>, i: int, width: nat)
    requires
        0 <= i <= widths.len(),
    ensures
        wrapped_rows(widths.subrange(0, i), width) <= wrapped_rows(widths, width),
    decreases widths.len() - i,
{
    if i < widths.len() {
        lemma_wrapped_rows_prefix(widths, i + 1, width);
        assert(widths.subrange(0, i + 1).drop_last() =~= widths.subrange(0, i));
    } else {
        assert(widths.subrange(0, i) =~= widths);
    }
}

// ---------------------------------------------------------------------------
// Wrapping indented lines by display width
// ---------------------------------------------------------------------------

/// What `UnicodeWidthChar::width` gives for a character: its display width in terminal
/// cells, `None` for a control character.
pub uninterp spec fn char_display_width(c: char) -> Option<nat>;

/// Calls `unicode_width::UnicodeWidthChar::width`. The contract claims only that the result
/// is the named function of the character.
#[verifier::external_body]
fn char_width(c: char) -> (r: Option<usize>)
    ensures
        match r {
            Some(w) => char_display_width(c) == Some(w as nat),
            None => char_display_width(c) is None,
        },
{
    unicode_width::UnicodeWidthChar::width(c)
}

/// The cells a character takes in a wrapped line (a control character takes none).
pub open spec fn cells(c: char) -> nat {
    match char_display_width(c) {
        Some(w) => w,
        None => 0,
    }
}

/// The state of wrapping: the finished lines, the fragments of the current line (each with
/// the index of its span), the fragment of the current span, and the current line's width.
pub struct WrapState {
    pub lines: Seq<Seq<(nat, Seq<char>)>>,
    pub current: Seq<(nat, Seq<char>)>,
    pub fragment: Seq<char>,
    pub width: nat,
}

/// The state after the character `c` of span `span`: when a non-empty line cannot take it
/// within `available` cells, the line ends before it.
pub open spec fn wrap_char(st: WrapState, span: nat, c: char, available: nat) -> WrapState {
    let st1 = if st.width > 0 && st.width + cells(c) > available {
        WrapState {
            lines: st.lines.push(if st.fragment.len() > 0 { st.current.push((span, st.fragment)) } else { st.current }),
            current: Seq::empty(),
            fragment: Seq::empty(),
            width: 0,
        }
    } else {
        st
    };
    WrapState { fragment: st1.fragment.push(c), width: st1.width + cells(c), ..st1 }
}

/// The state after the characters `cs` of span `span`.
pub open spec fn wrap_chars(st: WrapState, span: nat, cs: Seq<char>, available: nat) -> WrapState
    decreases cs.len(),
{
    if cs.len() == 0 {
        st
    } else {
        wrap_char(wrap_chars(st, span, cs.drop_last(), available), span, cs.last(), available)
    }
}

/// The state after a whole span: its last fragment joins the current line.
pub open spec fn wrap_span(st: WrapState, span: nat, cs: Seq<char>, available: nat) -> WrapState {
    let st1 = wrap_chars(st, span, cs, available);
    WrapState {
        current: if st1.fragment.len() > 0 { st1.current.push((span, st1.fragment)) } else { st1.current },
        fragment: Seq::empty(),
        ..st1
    }
}

/// The state after the spans.
pub open spec fn wrap_spans(spans: Seq<Seq<char>>, available: nat) -> WrapState
    decreases spans.len(),
{
    if spans.len() == 0 {
        WrapState { lines: Seq::empty(), current: Seq::empty(), fragment: Seq::empty(), width: 0 }
    } else {
        wrap_span(wrap_spans(spans.drop_last(), available), (spans.len() - 1) as nat, spans.last(), available)
    }
}

/// The cells left for content beside an indent of `indent` characters in a row of `width`
/// cells: at least one.
pub open spec fn available_cells(width: nat, indent: nat) -> nat {
    if width > indent + 1 { (width - indent) as nat } else { 1 }
}

/// The cells that characters take.
pub open spec fn chars_cells(cs: Seq<char>) -> nat
    decreases cs.len(),
{
    if cs.len() == 0 {
        0
    } else {
        chars_cells(cs.drop_last()) + cells(cs.last())
    }
}

/// The cells of the widest character.
pub open spec fn widest_char(cs: Seq<char>) -> nat
    decreases cs.len(),
{
    if cs.len() == 0 {
        0
    } else if cells(cs.last()) > widest_char(cs.drop_last()) {
        cells(cs.last())
    } else {
        widest_char(cs.drop_last())
    }
}

/// The cells that a wrapped row takes.
pub open spec fn row_cells(row: Seq<(nat, Seq<char>)>) -> nat
    decreases row.len(),
{
    if row.len() == 0 {
        0
    } else {
        row_cells(row.drop_last()) + chars_cells(row.last().1)
    }
}

/// The cells of the widest character of a wrapped row.
pub open spec fn row_widest(row: Seq<(nat, Seq<char>)>) -> nat
    decreases row.len(),
{
    if row.len() == 0 {
        0
    } else if widest_char(row.last().1) > row_widest(row.drop_last()) {
        widest_char(row.last().1)
    } else {
        row_widest(row.drop_last())
    }
}

/// The text of a wrapped row: its fragments in order.
pub open spec fn row_text(row: Seq<(nat, Seq<char>)>) -> Seq<char>
    decreases row.len(),
{
    if row.len() == 0 {
        Seq::empty()
    } else {
        row_text(row.drop_last()) + row.last().1
    }
}

/// The text of wrapped rows, in order.
pub open spec fn rows_text(rows: Seq<Seq<(nat, Seq<char>)>>) -> Seq<char>
    decreases rows.len(),
{
    if rows.len() == 0 {
        Seq::empty()
    } else {
        rows_text(rows.drop_last()) + row_text(rows.last())
    }
}

/// The text of spans, in order.
pub open spec fn spans_text(spans: Seq<Seq<char>>) -> Seq<char>
    decreases spans.len(),
{
    if spans.len() == 0 {
        Seq::empty()
    } else {
        spans_text(spans.drop_last()) + spans.last()
    }
}

/// Whether a wrapped row fits `available` cells, or is as wide as its widest character
/// alone (a character wider than the space, beside only zero-width characters).
pub open spec fn row_fits(row: Seq<(nat, Seq<char>)>, available: nat) -> bool {
    row_cells(row) <= available || row_cells(row) == row_widest(row)
}

/// The wrapped lines of an indented line's spans: greedy by display width, each line
/// holding fragments tagged with the index of their span.
pub open spec fn wrapped_spans(spans: Seq<Seq<char>>, width: nat, indent: nat) -> Seq<Seq<(nat, Seq<char>)>> {
    let st = wrap_spans(spans, available_cells(width, indent));
    st.lines.push(st.current)
}

/// The views of wrapped lines.
pub open spec fn wrapped_view(lines: Seq<Vec<(usize, String)>>) -> Seq<Seq<(nat, Seq<char>)>> {
    lines.map_values(|l: Vec<(usize, String)>| l@.map_values(|f: (usize, String)| (f.0 as nat, f.1@)))
}

/// The spans as character sequences.
pub open spec fn spans_view(spans: Seq<String>) -> Seq<Seq<char>> {
    spans.map_values(|s: String| s@)
}

/// Rewraps the spans of an indented line so that every row fits `width` cells beside an
/// indent of `indent` characters (every continuation row repeats the indent).
pub fn wrap_indented_spans(spans: &[String], indent: usize, width: u16) -> (r: Vec<Vec<(usize, String)>>)
    ensures
        wrapped_view(r@) == wrapped_spans(spans_view(spans@), width as nat, indent as nat),
{
    let w = width as usize;
    let available: usize = if w > indent && w - indent > 1 { w - indent } else { 1 };
    let ghost avail = available as nat;
    assert(avail == available_cells(width as nat, indent as nat));
    let mut lines: Vec<Vec<(usize, String)>> = Vec::new();
    let mut current: Vec<(usize, String)> = Vec::new();
    let mut current_width: usize = 0;
    let mut k: usize = 0;
    proof {
        assert(wrapped_view(lines@) =~= Seq::<Seq<(nat, Seq<char>)>>::empty());
        assert(current@.map_values(|f: (usize, String)| (f.0 as nat, f.1@)) =~= Seq::<(nat, Seq<char>)>::empty());
    }
    while k < spans.len()
        invariant
            k <= spans@.len(),
            avail == available as nat,
            available >= 1,
            ({
                let st = wrap_spans(spans_view(spans@.subrange(0, k as int)), avail);
                &&& wrapped_view(lines@) == st.lines
                &&& current@.map_values(|f: (usize, String)| (f.0 as nat, f.1@)) == st.current
                &&& current_width as nat == st.width
                &&& st.fragment.len() == 0
            }),
        decreases spans@.len() - k,
    {
        let ghost before = wrap_spans(spans_view(spans@.subrange(0, k as int)), avail);
        proof {
            assert(spans_view(spans@.subrange(0, k + 1)).drop_last() =~= spans_view(spans@.subrange(0, k as int)));
            assert(spans_view(spans@.subrange(0, k + 1)).last() == spans@[k as int]@);
        }
        let cs = chars_of(spans[k].as_str());
        let mut fragment = String::new();
        let mut j: usize = 0;
        while j < cs.len()
            invariant
                j <= cs@.len(),
                cs@ == spans@[k as int]@,
                k < spans@.len(),
                avail == available as nat,
                available >= 1,
                ({
                    let st = wrap_chars(before, k as nat, cs@.subrange(0, j as int), avail);
                    &&& wrapped_view(lines@) == st.lines
                    &&& current@.map_values(|f: (usize, String)| (f.0 as nat, f.1@)) == st.current
                    &&& current_width as nat == st.width
                    &&& fragment@ == st.fragment
                }),
            decreases cs@.len() - j,
        {
            proof {
                assert(cs@.subrange(0, j + 1).drop_last() =~= cs@.subrange(0, j as int));
                assert(cs@.subrange(0, j + 1).last() == cs@[j as int]);
            }
            let c = cs[j];
            let cw = match char_width(c) {
                Some(x) => x,
                None => 0,
            };
            if current_width > 0 && (current_width > available || cw > available - current_width) {
                let ghost lines_before = lines@;
                let ghost cur_before = current@;
                if fragment.unicode_len() > 0 {
                    let mut taken = String::new();
                    std::mem::swap(&mut taken, &mut fragment);
                    current.push((k, taken));
                }
                let mut line: Vec<(usize, String)> = Vec::new();
                std::mem::swap(&mut line, &mut current);
                lines.push(line);
                current_width = 0;
                proof {
                    assert(wrapped_view(lines@) =~= wrapped_view(lines_before).push(
                        line@.map_values(|f: (usize, String)| (f.0 as nat, f.1@)),
                    ));
                    assert(current@.map_values(|f: (usize, String)| (f.0 as nat, f.1@)) =~= Seq::<(nat, Seq<char>)>::empty());
                    assert(fragment@ =~= Seq::<char>::empty());
                    let pre = wrap_chars(before, k as nat, cs@.subrange(0, j as int), avail);
                    if pre.fragment.len() > 0 {
                        assert(line@.map_values(|f: (usize, String)| (f.0 as nat, f.1@)) =~= pre.current.push((k as nat, pre.fragment)));
                    } else {
                        assert(line@.map_values(|f: (usize, String)| (f.0 as nat, f.1@)) =~= pre.current);
                    }
                }
            }
            push_chars(&mut fragment, &[c]);
            proof {
                assert(seq![c] =~= [c]@);
            }
            current_width = current_width + cw;
            j = j + 1;
        }
        proof {
            assert(cs@.subrange(0, cs@.len() as int) =~= cs@);
        }
        let ghost cur_before = current@;
        if fragment.unicode_len() > 0 {
            current.push((k, fragment));
            proof {
                assert(current@.map_values(|f: (usize, String)| (f.0 as nat, f.1@)) =~= cur_before.map_values(
                    |f: (usize, String)| (f.0 as nat, f.1@),
                ).push((k as nat, wrap_chars(before, k as nat, cs@, avail).fragment)));
            }
        }
        k = k + 1;
    }
    proof {
        assert(spans@.subrange(0, spans@.len() as int) =~= spans@);
    }
    let ghost lines_before = lines@;
    lines.push(current);
    proof {
        assert(wrapped_view(lines@) =~= wrapped_view(lines_before).push(
            current@.map_values(|f: (usize, String)| (f.0 as nat, f.1@)),
        ));
    }
    lines
}

// ---------------------------------------------------------------------------
// Laws of labels and transcripts
// ---------------------------------------------------------------------------

proof fn lemma_widest_char_bounded(cs: Seq<char>)
    ensures
        widest_char(cs) <= chars_cells(cs),
    decreases cs.len(),
{
    if cs.len() > 0 {
        lemma_widest_char_bounded(cs.drop_last());
    }
}

proof fn lemma_row_widest_bounded(row: Seq<(nat, Seq<char>)>)
    ensures
        row_widest(row) <= row_cells(row),
    decreases row.len(),
{
    if row.len() > 0 {
        lemma_row_widest_bounded(row.drop_last());
        lemma_widest_char_bounded(row.last().1);
    }
}

/// What wrapping keeps: finished rows fit, the width counts the current row and fragment,
/// and the current row and fragment fit or are as wide as their widest character.
spec fn wrap_kept(st: WrapState, available: nat) -> bool {
    let widest = if widest_char(st.fragment) > row_widest(st.current) {
        widest_char(st.fragment)
    } else {
        row_widest(st.current)
    };
    &&& forall|i: int| 0 <= i < st.lines.len() ==> row_fits(#[trigger] st.lines[i], available)
    &&& st.width == row_cells(st.current) + chars_cells(st.fragment)
    &&& (st.width <= available || st.width == widest)
}

proof fn lemma_row_push(row: Seq<(nat, Seq<char>)>, f: (nat, Seq<char>))
    ensures
        row_cells(row.push(f)) == row_cells(row) + chars_cells(f.1),
        row_widest(row.push(f)) == if widest_char(f.1) > row_widest(row) { widest_char(f.1) } else { row_widest(row) },
{
    assert(row.push(f).drop_last() =~= row);
}

proof fn lemma_chars_push(cs: Seq<char>, c: char)
    ensures
        chars_cells(cs.push(c)) == chars_cells(cs) + cells(c),
        widest_char(cs.push(c)) == if cells(c) > widest_char(cs) { cells(c) } else { widest_char(cs) },
{
    assert(cs.push(c).drop_last() =~= cs);
}

proof fn lemma_wrap_char_kept(st: WrapState, span: nat, c: char, available: nat)
    requires
        wrap_kept(st, available),
    ensures
        wrap_kept(wrap_char(st, span, c, available), available),
{
    let next = wrap_char(st, span, c, available);
    if st.width > 0 && st.width + cells(c) > available {
        let line = if st.fragment.len() > 0 { st.current.push((span, st.fragment)) } else { st.current };
        if st.fragment.len() > 0 {
            lemma_row_push(st.current, (span, st.fragment));
        } else {
            assert(st.fragment =~= Seq::<char>::empty());
        }
        assert(row_fits(line, available));
        assert(next.lines == st.lines.push(line));
        assert forall|i: int| 0 <= i < next.lines.len() implies row_fits(#[trigger] next.lines[i], available) by {
            if i < st.lines.len() {
                assert(next.lines[i] == st.lines[i]);
            }
        }
        lemma_chars_push(Seq::<char>::empty(), c);
        assert(next.fragment == Seq::<char>::empty().push(c));
        assert(next.current == Seq::<(nat, Seq<char>)>::empty());
    } else {
        lemma_chars_push(st.fragment, c);
        if st.width == 0 {
            lemma_row_widest_bounded(st.current);
            lemma_widest_char_bounded(st.fragment);
        }
    }
}

proof fn lemma_wrap_chars_kept(st: WrapState, span: nat, cs: Seq<char>, available: nat)
    requires
        wrap_kept(st, available),
    ensures
        wrap_kept(wrap_chars(st, span, cs, available), available),
    decreases cs.len(),
{
    if cs.len() > 0 {
        lemma_wrap_chars_kept(st, span, cs.drop_last(), available);
        lemma_wrap_char_kept(wrap_chars(st, span, cs.drop_last(), available), span, cs.last(), available);
    }
}

proof fn lemma_wrap_spans_kept(spans: Seq<Seq<char>>, available: nat)
    ensures
        wrap_kept(wrap_spans(spans, available), available),
        wrap_spans(spans, available).fragment.len() == 0,
    decreases spans.len(),
{
    if spans.len() > 0 {
        let span = (spans.len() - 1) as nat;
        let before = wrap_spans(spans.drop_last(), available);
        lemma_wrap_spans_kept(spans.drop_last(), available);
        lemma_wrap_chars_kept(before, span, spans.last(), available);
        let st1 = wrap_chars(before, span, spans.last(), available);
        if st1.fragment.len() > 0 {
            lemma_row_push(st1.current, (span, st1.fragment));
        } else {
            assert(st1.fragment =~= Seq::<char>::empty());
        }
    } else {
        let st = wrap_spans(spans, available);
        assert(st.lines.len() == 0);
    }
}

/// Wrapped rows fit: every row takes at most the cells left beside the indent, unless it
/// is as wide as its widest character alone (a character wider than the space, beside
/// only zero-width characters).
pub proof fn law_wrapped_rows_fit(spans: Seq<Seq<char>>, width: nat, indent: nat)
    ensures
        forall|i: int| 0 <= i < wrapped_spans(spans, width, indent).len()
            ==> row_fits(#[trigger] wrapped_spans(spans, width, indent)[i], available_cells(width, indent)),
{
    let available = available_cells(width, indent);
    let st = wrap_spans(spans, available);
    lemma_wrap_spans_kept(spans, available);
    assert(st.fragment =~= Seq::<char>::empty());
    assert(row_fits(st.current, available));
    let rows = wrapped_spans(spans, width, indent);
    assert(rows == st.lines.push(st.current));
    assert forall|i: int| 0 <= i < rows.len() implies row_fits(#[trigger] rows[i], available) by {
        if i < st.lines.len() {
            assert(rows[i] == st.lines[i]);
        }
    }
}

/// The text a wrapping state holds: finished rows, the current row, the current fragment.
spec fn wrap_text(st: WrapState) -> Seq<char> {
    rows_text(st.lines) + row_text(st.current) + st.fragment
}

proof fn lemma_wrap_char_text(st: WrapState, span: nat, c: char, available: nat)
    ensures
        wrap_text(wrap_char(st, span, c, available)) == wrap_text(st).push(c),
{
    let next = wrap_char(st, span, c, available);
    if st.width > 0 && st.width + cells(c) > available {
        let line = if st.fragment.len() > 0 { st.current.push((span, st.fragment)) } else { st.current };
        assert(st.lines.push(line).drop_last() =~= st.lines);
        if st.fragment.len() > 0 {
            assert(st.current.push((span, st.fragment)).drop_last() =~= st.current);
            assert(row_text(line) == row_text(st.current) + st.fragment);
        } else {
            assert(st.fragment =~= Seq::<char>::empty());
            assert(row_text(line) =~= row_text(st.current) + st.fragment);
        }
        assert(rows_text(next.lines) == rows_text(st.lines) + row_text(line));
        assert(row_text(next.current) =~= Seq::<char>::empty());
        assert(wrap_text(next) =~= wrap_text(st).push(c));
    } else {
        assert(wrap_text(next) =~= wrap_text(st).push(c));
    }
}

proof fn lemma_wrap_chars_text(st: WrapState, span: nat, cs: Seq<char>, available: nat)
    ensures
        wrap_text(wrap_chars(st, span, cs, available)) == wrap_text(st) + cs,
    decreases cs.len(),
{
    if cs.len() == 0 {
        assert(wrap_text(st) + cs =~= wrap_text(st));
    } else {
        lemma_wrap_chars_text(st, span, cs.drop_last(), available);
        lemma_wrap_char_text(wrap_chars(st, span, cs.drop_last(), available), span, cs.last(), available);
        assert(wrap_text(st) + cs.drop_last() + seq![cs.last()] =~= wrap_text(st) + cs);
        assert((wrap_text(st) + cs.drop_last()).push(cs.last()) =~= wrap_text(st) + cs.drop_last() + seq![cs.last()]);
    }
}

proof fn lemma_wrap_spans_text(spans: Seq<Seq<char>>, available: nat)
    ensures
        wrap_text(wrap_spans(spans, available)) == spans_text(spans),
        wrap_spans(spans, available).fragment.len() == 0,
    decreases spans.len(),
{
    if spans.len() > 0 {
        let span = (spans.len() - 1) as nat;
        let before = wrap_spans(spans.drop_last(), available);
        lemma_wrap_spans_text(spans.drop_last(), available);
        lemma_wrap_chars_text(before, span, spans.last(), available);
        let st1 = wrap_chars(before, span, spans.last(), available);
        let st2 = wrap_spans(spans, available);
        if st1.fragment.len() > 0 {
            assert(st1.current.push((span, st1.fragment)).drop_last() =~= st1.current);
            assert(row_text(st2.current) == row_text(st1.current) + st1.fragment);
        } else {
            assert(st1.fragment =~= Seq::<char>::empty());
        }
        assert(wrap_text(st2) =~= wrap_text(st1));
    } else {
        let st = wrap_spans(spans, available);
        assert(wrap_text(st) =~= Seq::<char>::empty());
    }
}

/// Wrapping loses and reorders nothing: the rows, read in order, hold the spans' text.
pub proof fn law_wrapping_keeps_the_text(spans: Seq<Seq<char>>, width: nat, indent: nat)
    ensures
        rows_text(wrapped_spans(spans, width, indent)) == spans_text(spans),
{
    let available = available_cells(width, indent);
    let st = wrap_spans(spans, available);
    lemma_wrap_spans_text(spans, available);
    let rows = wrapped_spans(spans, width, indent);
    assert(rows.drop_last() =~= st.lines);
    assert(st.fragment =~= Seq::<char>::empty());
    assert(rows_text(rows) =~= wrap_text(st));
}

/// A fitted label never overflows its width, and a label that fits is unchanged.
pub proof fn law_labels_fit(label: Seq<char>, width: nat)
    ensures
        truncated(label, width).len() <= width,
        label.len() <= width ==> truncated(label, width) == label,
{
}

/// A padded label fills at most its row (rows narrower than two cells hold the padding).
pub proof fn law_padded_labels_fit_the_row(label: Seq<char>, row_width: nat)
    ensures
        padded(label, row_width).len() <= if row_width >= 2 { row_width } else { 2 },
{
    law_labels_fit(label, if row_width >= 2 { (row_width - 2) as nat } else { 0 });
}

/// Reasoning without a label is shown unchanged.
pub proof fn law_unlabelled_reasoning_is_unchanged(content: Seq<char>)
    requires
        !starts_with(content.subrange(skip_blanks(content, 0), content.len() as int), "Thinking Process:"@),
        !starts_with(content.subrange(skip_blanks(content, 0), content.len() as int), "Thinking:"@),
    ensures
        unlabelled_reasoning(content) == content,
{
}

/// Content without a Markdown document wrapper is shown unchanged.
pub proof fn law_unwrapped_content_is_unchanged(content: Seq<char>)
    requires
        markdown_wrapper(content) is None,
    ensures
        unwrapped_document(content) == content,
{
}

proof fn lemma_result_role(m: MessageView)
    requires
        m.role@ == "exec_result"@,
    ensures
        !has_role(m, "user"@),
        !has_role(m, "model"@),
        !has_role(m, "exec"@),
        has_role(m, "exec_result"@),
{
    reveal_strlit("user");
    reveal_strlit("model");
    reveal_strlit("exec");
    reveal_strlit("exec_result");
    assert("exec_result"@.len() == 11);
    assert("user"@.len() == 4);
    assert("model"@.len() == 5);
    assert("exec"@.len() == 4);
}

proof fn lemma_result_items_in_history(ms: Seq<MessageView>, k: int, x: ItemSpec)
    requires
        0 <= k < ms.len(),
        ms[k].role@ == "exec_result"@,
        message_items(ms[k], false).0.contains(x),
    ensures
        messages_items(ms).0.contains(x),
    decreases ms.len(),
{
    reveal_strlit("user");
    reveal_strlit("model");
    reveal_strlit("exec");
    reveal_strlit("exec_result");
    let (before, open) = messages_items(ms.drop_last());
    let items = messages_items(ms).0;
    if k == ms.len() - 1 {
        let last = message_items(ms.last(), open).0;
        lemma_result_role(ms[k]);
        assert(last == message_items(ms[k], false).0);
        let j = choose|j: int| 0 <= j < last.len() && last[j] == x;
        assert(items == before + last);
        assert(items[before.len() + j] == x);
    } else {
        assert(ms.drop_last()[k] == ms[k]);
        lemma_result_items_in_history(ms.drop_last(), k, x);
        let j = choose|j: int| 0 <= j < before.len() && before[j] == x;
        assert(items[j] == x);
    }
}

/// A command's result is shown whole: the transcript of a session holds the captured
/// standard output, the captured standard error and the status of every command result
/// that has them.
pub proof fn law_command_results_are_shown(snapshot: AppSnapshot, turn_active: bool, k: int)
    requires
        snapshot.active_session is Some,
        0 <= k < snapshot.active_session->Some_0.messages@.len(),
        snapshot.active_session->Some_0.messages@[k].role@ == "exec_result"@,
    ensures
        ({
            let m = snapshot.active_session->Some_0.messages@[k];
            let t = transcript(snapshot, turn_active);
            &&& m.content@.len() > 0 ==> t.contains(ItemSpec::ResultStdout(m.content@))
            &&& m.reasoning_content@.len() > 0 ==> t.contains(ItemSpec::ResultStderr(m.reasoning_content@))
            &&& m.status@.len() > 0 ==> t.contains(ItemSpec::ResultStatus(m.status@))
        }),
{
    reveal_strlit("user");
    reveal_strlit("model");
    reveal_strlit("exec");
    reveal_strlit("exec_result");
    let ms = snapshot.active_session->Some_0.messages@;
    let m = ms[k];
    let items = message_items(m, false).0;
    lemma_result_role(m);
    let stdout = if m.content@.len() > 0 { seq![ItemSpec::ResultStdout(m.content@)] } else { Seq::<ItemSpec>::empty() };
    let stderr = if m.reasoning_content@.len() > 0 {
        seq![ItemSpec::ResultStderr(m.reasoning_content@)]
    } else {
        Seq::<ItemSpec>::empty()
    };
    let status = if m.status@.len() > 0 { seq![ItemSpec::ResultStatus(m.status@)] } else { Seq::<ItemSpec>::empty() };
    assert(items == seq![ItemSpec::Blank, ItemSpec::ExecResultBadge] + stdout + stderr + status);
    let body = messages_items(ms).0;
    let t = transcript(snapshot, turn_active);
    assert(t.subrange(0, body.len() as int) =~= body);
    if m.content@.len() > 0 {
        let x = ItemSpec::ResultStdout(m.content@);
        assert(items[2] == x);
        lemma_result_items_in_history(ms, k, x);
        let j = choose|j: int| 0 <= j < body.len() && body[j] == x;
        assert(t[j] == x);
    }
    if m.reasoning_content@.len() > 0 {
        let x = ItemSpec::ResultStderr(m.reasoning_content@);
        assert(items[2 + stdout.len() as int] == x);
        lemma_result_items_in_history(ms, k, x);
        let j = choose|j: int| 0 <= j < body.len() && body[j] == x;
        assert(t[j] == x);
    }
    if m.status@.len() > 0 {
        let x = ItemSpec::ResultStatus(m.status@);
        assert(items[(2 + stdout.len() + stderr.len()) as int] == x);
        lemma_result_items_in_history(ms, k, x);
        let j = choose|j: int| 0 <= j < body.len() && body[j] == x;
        assert(t[j] == x);
    }
}

} // verus!
