//! Presentation state of the terminal UI and the decisions taken on each key: focus,
//! the session cursor, transcript scrolling, and the modal overlays.
//!
//! The editor widget is a type parameter `E`: this module carries editors but never reads
//! them; the caller applies keys to them and reads their content.
use vstd::prelude::*;

use crate::session::{AppSnapshot, SessionSummary};
use crate::text::{chars_of, eq_ignore_ascii_case, range_eq_ignore_ascii_case, str_eq, string_from_range, trim, trim_range};

verus! {

// ---------------------------------------------------------------------------
// Keys and actions
// ---------------------------------------------------------------------------

/// The actions the main screen and the overlays understand.
#[derive(Debug, Clone, Copy, PartialEq, Eq, Structural)]
pub enum UiAction {
    FocusNext,
    FocusPrevious,
    MoveUp,
    MoveDown,
    Activate,
    Delete,
    Back,
    OpenControl,
    Interrupt,
}

/// The key of a key event.
#[derive(Debug, Clone, Copy, PartialEq, Eq, Structural)]
pub enum Key {
    Char(char),
    Tab,
    BackTab,
    Up,
    Down,
    Left,
    Right,
    Enter,
    Delete,
    Esc,
    End,
    Other,
}

/// The modifier keys held during a key event.
#[derive(Debug, Clone, Copy, PartialEq, Eq, Structural)]
pub struct KeyModifiers {
    pub control: bool,
    pub alt: bool,
    /// Shift, super, hyper or meta.
    pub other: bool,
}

impl KeyModifiers {
    pub fn none() -> (r: KeyModifiers)
        ensures
            !r.control && !r.alt && !r.other,
    {
        KeyModifiers { control: false, alt: false, other: false }
    }

    pub fn control() -> (r: KeyModifiers)
        ensures
            r.control && !r.alt && !r.other,
    {
        KeyModifiers { control: true, alt: false, other: false }
    }

    pub fn alt() -> (r: KeyModifiers)
        ensures
            !r.control && r.alt && !r.other,
    {
        KeyModifiers { control: false, alt: true, other: false }
    }

    pub open spec fn is_none(self) -> bool {
        !self.control && !self.alt && !self.other
    }
}

/// A key event: the key, the modifiers, and whether it is a press (not a repeat or a
/// release).
#[derive(Debug, Clone, Copy, PartialEq, Eq, Structural)]
pub struct KeyInput {
    pub key: Key,
    pub modifiers: KeyModifiers,
    pub press: bool,
}

impl KeyInput {
    /// A key press.
    pub fn new(key: Key, modifiers: KeyModifiers) -> (r: KeyInput)
        ensures
            r == (KeyInput { key, modifiers, press: true }),
    {
        KeyInput { key, modifiers, press: true }
    }
}

/// The action bound to a key event.
pub open spec fn action_of(k: KeyInput) -> Option<UiAction> {
    if !k.press {
        None
    } else {
        match k.key {
            Key::Char(c) => if c == ' ' && k.modifiers.control {
                Some(UiAction::OpenControl)
            } else if c == '\0' {
                Some(UiAction::OpenControl)
            } else if c == 'c' && k.modifiers.control {
                Some(UiAction::Interrupt)
            } else {
                None
            },
            Key::Tab => Some(UiAction::FocusNext),
            Key::BackTab => Some(UiAction::FocusPrevious),
            Key::Up => Some(UiAction::MoveUp),
            Key::Down => Some(UiAction::MoveDown),
            Key::Enter => if k.modifiers.alt {
                None
            } else {
                Some(UiAction::Activate)
            },
            Key::Delete => Some(UiAction::Delete),
            Key::Esc => Some(UiAction::Back),
            _ => None,
        }
    }
}

/// Maps a key event to its action. Horizontal arrows and ordinary characters have none:
/// they belong to the focused editor.
pub fn action(key: KeyInput) -> (r: Option<UiAction>)
    ensures
        r == action_of(key),
{
    if !key.press {
        return None;
    }
    match key.key {
        Key::Char(c) => if c == ' ' && key.modifiers.control {
            Some(UiAction::OpenControl)
        } else if c == '\0' {
            Some(UiAction::OpenControl)
        } else if c == 'c' && key.modifiers.control {
            Some(UiAction::Interrupt)
        } else {
            None
        },
        Key::Tab => Some(UiAction::FocusNext),
        Key::BackTab => Some(UiAction::FocusPrevious),
        Key::Up => Some(UiAction::MoveUp),
        Key::Down => Some(UiAction::MoveDown),
        Key::Enter => if key.modifiers.alt {
            None
        } else {
            Some(UiAction::Activate)
        },
        Key::Delete => Some(UiAction::Delete),
        Key::Esc => Some(UiAction::Back),
        _ => None,
    }
}

/// The menu letter of a key: an ASCII letter typed without modifiers, upper-cased.
pub open spec fn accelerator_of(k: KeyInput) -> Option<char> {
    match k.key {
        Key::Char(c) => if k.modifiers.is_none() && ('a' <= c <= 'z') {
            Some(((c as u32) - 32) as char)
        } else if k.modifiers.is_none() && ('A' <= c <= 'Z') {
            Some(c)
        } else {
            None
        },
        _ => None,
    }
}

/// The control-menu letter typed with `key`, if any.
pub fn control_accelerator(key: KeyInput) -> (r: Option<char>)
    ensures
        r == accelerator_of(key),
{
    match key.key {
        Key::Char(c) => {
            let plain = !key.modifiers.control && !key.modifiers.alt && !key.modifiers.other;
            if plain && 'a' <= c && c <= 'z' {
                let upper = ((c as u8) - 32) as char;
                Some(upper)
            } else if plain && 'A' <= c && c <= 'Z' {
                Some(c)
            } else {
                None
            }
        },
        _ => None,
    }
}

/// An interrupt typed while an overlay is open is consumed by the overlay: it never
/// cancels background work.
pub fn overlay_consumes_interrupt(action: Option<UiAction>) -> (r: bool)
    ensures
        r == (action == Some(UiAction::Interrupt)),
{
    match action {
        Some(UiAction::Interrupt) => true,
        _ => false,
    }
}

// ---------------------------------------------------------------------------
// Presentation state
// ---------------------------------------------------------------------------

/// The only keyboard-focusable regions on the main work surface.
#[derive(Debug, Clone, Copy, PartialEq, Eq, Structural)]
pub enum MainFocus {
    Sessions,
    Session,
    Input,
}

/// UI cursor state for the session rail. It never owns a session object.
#[derive(Debug, Clone, PartialEq, Eq)]
pub enum SessionCursor {
    Session(String),
    NewSession,
}

impl View for SessionCursor {
    /// The identity under the cursor; `None` for the new-session action.
    type V = Option<Seq<char>>;

    open spec fn view(&self) -> Option<Seq<char>> {
        match self {
            SessionCursor::Session(id) => Some(id@),
            SessionCursor::NewSession => None,
        }
    }
}

/// The rows of the control menu.
pub const CONTROL_ROWS: usize = 4;

/// The topmost modal currently owning keyboard input.
pub enum Overlay<E> {
    Control { cursor: usize },
    ConfirmDelete(String),
    LlmParameters { cursor: usize, advanced: bool, draft: Option<E> },
    AdditionalInstructions { editor: E },
    Profiles { cursor: usize, names: Vec<String> },
    Error { title: String, message: String, exit_on_close: bool },
}

/// The focus after `FocusNext`.
pub open spec fn next_focus(f: MainFocus) -> MainFocus {
    match f {
        MainFocus::Sessions => MainFocus::Session,
        MainFocus::Session => MainFocus::Input,
        MainFocus::Input => MainFocus::Sessions,
    }
}

/// The focus after `FocusPrevious`.
pub open spec fn previous_focus(f: MainFocus) -> MainFocus {
    match f {
        MainFocus::Sessions => MainFocus::Input,
        MainFocus::Session => MainFocus::Sessions,
        MainFocus::Input => MainFocus::Session,
    }
}

/// The identities of the listed sessions, in order.
pub open spec fn session_ids(snapshot: AppSnapshot) -> Seq<Seq<char>> {
    snapshot.sessions@.map_values(|s: SessionSummary| s.id@)
}

/// The cursor a snapshot suggests: the active session, else the first one, else the
/// new-session action.
pub open spec fn default_cursor(snapshot: AppSnapshot) -> Option<Seq<char>> {
    match snapshot.active_session {
        Some(v) => Some(v.id@),
        None => if snapshot.sessions@.len() > 0 {
            Some(snapshot.sessions@[0].id@)
        } else {
            None
        },
    }
}

/// The position of the cursor in the rail: 0 for the new-session action, `i + 1` for the
/// first session with its identity, and 0 for an identity that is not listed.
pub open spec fn cursor_position(ids: Seq<Seq<char>>, cursor: Option<Seq<char>>) -> int {
    match cursor {
        None => 0,
        Some(id) => match ids.index_of_first(id) {
            Some(i) => i + 1,
            None => 0,
        },
    }
}

/// The cursor after one step up or down the rail.
pub open spec fn moved_cursor(ids: Seq<Seq<char>>, cursor: Option<Seq<char>>, down: bool) -> Option<Seq<char>> {
    let p = cursor_position(ids, cursor);
    let next = if down {
        if p + 1 < ids.len() { p + 1 } else { ids.len() as int }
    } else {
        if p > 0 { p - 1 } else { 0 }
    };
    if next == 0 {
        None
    } else {
        Some(ids[next - 1])
    }
}

/// The first offset that can show the last line.
pub open spec fn last_offset(content: nat, viewport: nat) -> nat {
    if content > viewport { (content - viewport) as nat } else { 0 }
}

/// The transcript's scroll state: the first line shown, whether new output is followed,
/// and the wrapped line count and visible line count of the last render.
pub struct TranscriptPosition {
    pub offset: nat,
    pub follow: bool,
    pub content: nat,
    pub viewport: nat,
}

/// The position after a render of `content` lines in `viewport` lines: while following,
/// the last line is shown; otherwise the position is kept, within bounds.
pub open spec fn synced(p: TranscriptPosition, content: nat, viewport: nat) -> TranscriptPosition {
    let last = last_offset(content, viewport);
    TranscriptPosition {
        offset: if p.follow || p.offset >= last { last } else { p.offset },
        follow: p.follow,
        content,
        viewport,
    }
}

/// The position after scrolling one line. Scrolling down to the last line, or to the line
/// before it, resumes following; scrolling up stops following unless the transcript fits.
pub open spec fn scrolled(p: TranscriptPosition, down: bool) -> TranscriptPosition {
    let last = last_offset(p.content, p.viewport);
    if down {
        let moved = if p.offset + 1 < last { p.offset + 1 } else { last };
        let follow = last - moved <= 1;
        TranscriptPosition { offset: if follow { last } else { moved }, follow, ..p }
    } else {
        TranscriptPosition { offset: if p.offset > 0 { (p.offset - 1) as nat } else { 0 }, follow: last == 0, ..p }
    }
}

/// The position after asking to follow new output.
pub open spec fn followed(p: TranscriptPosition) -> TranscriptPosition {
    TranscriptPosition { follow: true, ..p }
}

/// The first row shown of the stored-session list after keeping the selected row visible
/// in `rows` rows: the offset moves only as far as needed.
pub open spec fn list_offset_for(offset: nat, selected: Option<usize>, rows: nat) -> nat {
    match selected {
        Some(s) => if rows == 0 {
            offset
        } else if s < offset {
            s as nat
        } else if s >= offset + rows {
            (s + 1 - rows) as nat
        } else {
            offset
        },
        None => offset,
    }
}

/// Presentation state that may change without mutating the application.
pub struct UiState<E> {
    pub focus: MainFocus,
    pub session_cursor: SessionCursor,
    pub overlay: Option<Overlay<E>>,
    pub input: E,
    transcript_offset: usize,
    transcript_follow_bottom: bool,
    transcript_content_lines: usize,
    transcript_viewport_lines: usize,
    session_list_offset: usize,
}

/// Finds the first session whose identity is `id`.
fn position_in(sessions: &Vec<SessionSummary>, id: &str) -> (r: Option<usize>)
    ensures
        match r {
            Some(i) => i < sessions@.len() && sessions@.map_values(|s: SessionSummary| s.id@).index_of_first(id@) == Some(i as int),
            None => sessions@.map_values(|s: SessionSummary| s.id@).index_of_first(id@) is None,
        },
{
    let ghost ids = sessions@.map_values(|s: SessionSummary| s.id@);
    let mut i: usize = 0;
    while i < sessions.len()
        invariant
            i <= sessions@.len(),
            ids == sessions@.map_values(|s: SessionSummary| s.id@),
            forall|j: int| 0 <= j < i ==> ids[j] != id@,
        decreases sessions@.len() - i,
    {
        if str_eq(sessions[i].id.as_str(), id) {
            proof {
                ids.index_of_first_ensures(id@);
                assert(ids[i as int] == id@);
                assert(ids.contains(id@));
                let f = ids.index_of_first(id@)->Some_0;
                assert(f == i) by {
                    if f < i {
                        assert(ids[f] != id@);
                    }
                }
            }
            return Some(i);
        }
        i = i + 1;
    }
    proof {
        ids.index_of_first_ensures(id@);
        assert(!ids.contains(id@));
    }
    None
}

/// The cursor a snapshot suggests.
fn cursor_for(snapshot: &AppSnapshot) -> (r: SessionCursor)
    ensures
        r@ == default_cursor(*snapshot),
{
    match &snapshot.active_session {
        Some(v) => SessionCursor::Session(v.id.clone()),
        None => if snapshot.sessions.len() > 0 {
            SessionCursor::Session(snapshot.sessions[0].id.clone())
        } else {
            SessionCursor::NewSession
        },
    }
}

impl<E> UiState<E> {
    /// The focused region.
    pub closed spec fn focused(&self) -> MainFocus {
        self.focus
    }

    /// The identity under the rail cursor (`None` for the new-session action).
    pub closed spec fn cursor(&self) -> Option<Seq<char>> {
        self.session_cursor@
    }

    /// The open overlay.
    pub closed spec fn open_overlay(&self) -> Option<Overlay<E>> {
        self.overlay
    }

    /// The chat input editor.
    pub closed spec fn editor(&self) -> E {
        self.input
    }

    /// The transcript's scroll state: its offset, whether it follows new output, and its
    /// line counts at the last render.
    pub open spec fn transcript(&self) -> TranscriptPosition {
        TranscriptPosition {
            offset: self.offset(),
            follow: self.follows_bottom(),
            content: self.content_lines(),
            viewport: self.viewport_lines(),
        }
    }

    /// The first transcript line shown.
    pub closed spec fn offset(&self) -> nat {
        self.transcript_offset as nat
    }

    /// Whether the transcript follows new output.
    pub closed spec fn follows_bottom(&self) -> bool {
        self.transcript_follow_bottom
    }

    /// The transcript's wrapped line count at the last render.
    pub closed spec fn content_lines(&self) -> nat {
        self.transcript_content_lines as nat
    }

    /// The transcript's visible line count at the last render.
    pub closed spec fn viewport_lines(&self) -> nat {
        self.transcript_viewport_lines as nat
    }

    /// The first stored session shown in the rail.
    pub closed spec fn list_offset(&self) -> nat {
        self.session_list_offset as nat
    }

    /// The state for a snapshot: the rail is focused, the cursor is on the active session
    /// (else the first one, else the new-session action), no overlay is open, and the
    /// transcript follows new output.
    pub fn new(snapshot: &AppSnapshot, input: E) -> (r: UiState<E>)
        ensures
            r.focused() == MainFocus::Sessions,
            r.cursor() == default_cursor(*snapshot),
            r.open_overlay() is None,
            r.editor() == input,
            r.offset() == 0,
            r.follows_bottom(),
            r.content_lines() == 0,
            r.viewport_lines() == 0,
            r.list_offset() == 0,
    {
        UiState {
            focus: MainFocus::Sessions,
            session_cursor: cursor_for(snapshot),
            overlay: None,
            input,
            transcript_offset: 0,
            transcript_follow_bottom: true,
            transcript_content_lines: 0,
            transcript_viewport_lines: 0,
            session_list_offset: 0,
        }
    }

    /// Keeps a cursor on its stable identity across snapshot updates; a cursor whose
    /// session is gone moves to the cursor the snapshot suggests.
    pub fn sync_sessions(&mut self, snapshot: &AppSnapshot)
        ensures
            final(self).cursor() == (match old(self).cursor() {
                Some(id) => if session_ids(*snapshot).contains(id) {
                    Some(id)
                } else {
                    default_cursor(*snapshot)
                },
                None => None,
            }),
            final(self).focused() == old(self).focused(),
            final(self).open_overlay() == old(self).open_overlay(),
            final(self).editor() == old(self).editor(),
            final(self).offset() == old(self).offset(),
            final(self).follows_bottom() == old(self).follows_bottom(),
            final(self).content_lines() == old(self).content_lines(),
            final(self).viewport_lines() == old(self).viewport_lines(),
            final(self).list_offset() == old(self).list_offset(),
    {
        let live = match &self.session_cursor {
            SessionCursor::Session(id) => position_in(&snapshot.sessions, id.as_str()).is_some(),
            SessionCursor::NewSession => true,
        };
        proof {
            if let Some(id) = self.session_cursor@ {
                session_ids(*snapshot).index_of_first_ensures(id);
            }
        }
        if !live {
            self.session_cursor = cursor_for(snapshot);
        }
    }

    pub fn focus_next(&mut self)
        ensures
            final(self).focused() == next_focus(old(self).focused()),
            final(self).cursor() == old(self).cursor(),
            final(self).open_overlay() == old(self).open_overlay(),
            final(self).editor() == old(self).editor(),
            final(self).offset() == old(self).offset(),
            final(self).follows_bottom() == old(self).follows_bottom(),
            final(self).content_lines() == old(self).content_lines(),
            final(self).viewport_lines() == old(self).viewport_lines(),
            final(self).list_offset() == old(self).list_offset(),
    {
        self.focus = match self.focus {
            MainFocus::Sessions => MainFocus::Session,
            MainFocus::Session => MainFocus::Input,
            MainFocus::Input => MainFocus::Sessions,
        };
    }

    pub fn focus_previous(&mut self)
        ensures
            final(self).focused() == previous_focus(old(self).focused()),
            final(self).cursor() == old(self).cursor(),
            final(self).open_overlay() == old(self).open_overlay(),
            final(self).editor() == old(self).editor(),
            final(self).offset() == old(self).offset(),
            final(self).follows_bottom() == old(self).follows_bottom(),
            final(self).content_lines() == old(self).content_lines(),
            final(self).viewport_lines() == old(self).viewport_lines(),
            final(self).list_offset() == old(self).list_offset(),
    {
        self.focus = match self.focus {
            MainFocus::Sessions => MainFocus::Input,
            MainFocus::Session => MainFocus::Sessions,
            MainFocus::Input => MainFocus::Session,
        };
    }

    /// Moves the rail cursor one row: the new-session action sits above the sessions.
    pub fn move_session_cursor(&mut self, snapshot: &AppSnapshot, down: bool)
        ensures
            final(self).cursor() == moved_cursor(session_ids(*snapshot), old(self).cursor(), down),
            final(self).focused() == old(self).focused(),
            final(self).open_overlay() == old(self).open_overlay(),
            final(self).editor() == old(self).editor(),
            final(self).offset() == old(self).offset(),
            final(self).follows_bottom() == old(self).follows_bottom(),
            final(self).content_lines() == old(self).content_lines(),
            final(self).viewport_lines() == old(self).viewport_lines(),
            final(self).list_offset() == old(self).list_offset(),
    {
        let ghost ids = session_ids(*snapshot);
        let n = snapshot.sessions.len();
        let current: usize = match &self.session_cursor {
            SessionCursor::Session(id) => match position_in(&snapshot.sessions, id.as_str()) {
                Some(i) => i + 1,
                None => 0,
            },
            SessionCursor::NewSession => 0,
        };
        assert(current == cursor_position(ids, self.session_cursor@));
        let next: usize = if down {
            if current < n { current + 1 } else { n }
        } else {
            if current > 0 { current - 1 } else { 0 }
        };
        self.session_cursor = if next == 0 {
            SessionCursor::NewSession
        } else {
            SessionCursor::Session(snapshot.sessions[next - 1].id.clone())
        };
    }

    /// Keeps the selected stored session visible in a rail of `viewport_rows` rows.
    pub fn sync_session_list_scroll(&mut self, selected: Option<usize>, viewport_rows: usize)
        ensures
            final(self).list_offset() == list_offset_for(old(self).list_offset(), selected, viewport_rows as nat),
            final(self).focused() == old(self).focused(),
            final(self).cursor() == old(self).cursor(),
            final(self).open_overlay() == old(self).open_overlay(),
            final(self).editor() == old(self).editor(),
            final(self).offset() == old(self).offset(),
            final(self).follows_bottom() == old(self).follows_bottom(),
            final(self).content_lines() == old(self).content_lines(),
            final(self).viewport_lines() == old(self).viewport_lines(),
    {
        let selected = match selected {
            Some(s) => s,
            None => return,
        };
        if viewport_rows == 0 {
            return;
        }
        if selected < self.session_list_offset {
            self.session_list_offset = selected;
        } else if selected - self.session_list_offset >= viewport_rows {
            self.session_list_offset = selected - (viewport_rows - 1);
        }
    }

    pub fn session_list_offset(&self) -> (r: usize)
        ensures
            r == self.list_offset(),
    {
        self.session_list_offset
    }

    /// Records the transcript's size after a render. While following, the last line is
    /// shown; otherwise the position is kept, within bounds.
    pub fn sync_transcript(&mut self, content_lines: usize, viewport_lines: usize)
        ensures
            final(self).transcript() == synced(old(self).transcript(), content_lines as nat, viewport_lines as nat),
            final(self).focused() == old(self).focused(),
            final(self).cursor() == old(self).cursor(),
            final(self).open_overlay() == old(self).open_overlay(),
            final(self).editor() == old(self).editor(),
            final(self).list_offset() == old(self).list_offset(),
    {
        self.transcript_content_lines = content_lines;
        self.transcript_viewport_lines = viewport_lines;
        let last = content_lines.saturating_sub(viewport_lines);
        if self.transcript_follow_bottom {
            self.transcript_offset = last;
        } else if self.transcript_offset >= last {
            self.transcript_offset = last;
        }
    }

    /// Scrolls the transcript one line. Scrolling down to the last line, or to the line
    /// before it, resumes following new output; scrolling up stops following unless the
    /// transcript fits.
    pub fn scroll_transcript(&mut self, down: bool)
        ensures
            final(self).transcript() == scrolled(old(self).transcript(), down),
            final(self).focused() == old(self).focused(),
            final(self).cursor() == old(self).cursor(),
            final(self).open_overlay() == old(self).open_overlay(),
            final(self).editor() == old(self).editor(),
            final(self).list_offset() == old(self).list_offset(),
    {
        let last = self.transcript_content_lines.saturating_sub(self.transcript_viewport_lines);
        if down {
            self.transcript_offset = if self.transcript_offset < last && self.transcript_offset + 1 < last {
                self.transcript_offset + 1
            } else {
                last
            };
            self.transcript_follow_bottom = last.saturating_sub(self.transcript_offset) <= 1;
            if self.transcript_follow_bottom {
                self.transcript_offset = last;
            }
        } else {
            self.transcript_offset = self.transcript_offset.saturating_sub(1);
            self.transcript_follow_bottom = last == 0;
        }
    }

    /// The first transcript line shown, for the paragraph widget.
    pub fn transcript_offset(&self) -> (r: u16)
        ensures
            r == (if self.offset() < u16::MAX { self.offset() } else { u16::MAX as nat }),
    {
        if self.transcript_offset < 65535 {
            self.transcript_offset as u16
        } else {
            65535u16
        }
    }

    /// Whether the transcript is longer than its viewport.
    pub fn transcript_scrolls(&self) -> (r: bool)
        ensures
            r == (self.content_lines() > self.viewport_lines()),
    {
        self.transcript_content_lines > self.transcript_viewport_lines
    }

    /// The scrollbar's content length, position and viewport length.
    pub fn transcript_scrollbar_state(&self) -> (r: (usize, usize, usize))
        ensures
            r.0 == self.content_lines(),
            r.1 == self.offset(),
            r.2 == self.viewport_lines(),
    {
        (self.transcript_content_lines, self.transcript_offset, self.transcript_viewport_lines)
    }

    /// Resumes following new output.
    pub fn follow_transcript_bottom(&mut self)
        ensures
            final(self).transcript() == followed(old(self).transcript()),
            final(self).follows_bottom(),
            final(self).offset() == old(self).offset(),
            final(self).content_lines() == old(self).content_lines(),
            final(self).viewport_lines() == old(self).viewport_lines(),
            final(self).focused() == old(self).focused(),
            final(self).cursor() == old(self).cursor(),
            final(self).open_overlay() == old(self).open_overlay(),
            final(self).editor() == old(self).editor(),
            final(self).list_offset() == old(self).list_offset(),
    {
        self.transcript_follow_bottom = true;
    }

    /// Replaces the active UI context with a small, user-dismissible error dialog.
    pub fn show_error(&mut self, title: String, message: String)
        ensures
            final(self).open_overlay() matches Some(Overlay::Error { title: t, message: m, exit_on_close })
                && t@ == title@ && m@ == message@ && !exit_on_close,
            final(self).focused() == old(self).focused(),
            final(self).cursor() == old(self).cursor(),
            final(self).editor() == old(self).editor(),
            final(self).offset() == old(self).offset(),
            final(self).follows_bottom() == old(self).follows_bottom(),
            final(self).content_lines() == old(self).content_lines(),
            final(self).viewport_lines() == old(self).viewport_lines(),
            final(self).list_offset() == old(self).list_offset(),
    {
        self.overlay = Some(Overlay::Error { title, message, exit_on_close: false });
    }

    /// Shows a startup error whose dialog exits the application when closed.
    pub fn show_startup_error(&mut self, message: String)
        ensures
            final(self).open_overlay() matches Some(Overlay::Error { title: t, message: m, exit_on_close })
                && t@ == " STARTUP ERROR "@ && m@ == message@ && exit_on_close,
            final(self).focused() == old(self).focused(),
            final(self).cursor() == old(self).cursor(),
            final(self).editor() == old(self).editor(),
            final(self).offset() == old(self).offset(),
            final(self).follows_bottom() == old(self).follows_bottom(),
            final(self).content_lines() == old(self).content_lines(),
            final(self).viewport_lines() == old(self).viewport_lines(),
            final(self).list_offset() == old(self).list_offset(),
    {
        self.overlay = Some(Overlay::Error { title: String::from_str(" STARTUP ERROR "), message, exit_on_close: true });
    }
}

// ---------------------------------------------------------------------------
// Overlays
// ---------------------------------------------------------------------------

/// The rows of the LLM parameters overlay.
#[derive(Debug, Clone, Copy, PartialEq, Eq, Structural)]
pub enum SamplingField {
    Temperature,
    MaxTokens,
    TopP,
    TopK,
    MinP,
    RepeatPenalty,
    Advanced,
    Seed,
    RepeatLastN,
    PresencePenalty,
    FrequencyPenalty,
    StopSequences,
    Grammar,
}

/// The rows shown: the basic fields and the advanced toggle, then the advanced fields
/// when they are expanded.
pub open spec fn fields_of(advanced: bool) -> Seq<SamplingField> {
    let basic = seq![
        SamplingField::Temperature,
        SamplingField::MaxTokens,
        SamplingField::TopP,
        SamplingField::TopK,
        SamplingField::MinP,
        SamplingField::RepeatPenalty,
        SamplingField::Advanced,
    ];
    if advanced {
        basic + seq![
            SamplingField::Seed,
            SamplingField::RepeatLastN,
            SamplingField::PresencePenalty,
            SamplingField::FrequencyPenalty,
            SamplingField::StopSequences,
            SamplingField::Grammar,
        ]
    } else {
        basic
    }
}

/// The rows of the LLM parameters overlay.
pub fn sampling_fields(advanced: bool) -> (r: Vec<SamplingField>)
    ensures
        r@ == fields_of(advanced),
{
    let mut fields = vec![
        SamplingField::Temperature,
        SamplingField::MaxTokens,
        SamplingField::TopP,
        SamplingField::TopK,
        SamplingField::MinP,
        SamplingField::RepeatPenalty,
        SamplingField::Advanced,
    ];
    if advanced {
        fields.push(SamplingField::Seed);
        fields.push(SamplingField::RepeatLastN);
        fields.push(SamplingField::PresencePenalty);
        fields.push(SamplingField::FrequencyPenalty);
        fields.push(SamplingField::StopSequences);
        fields.push(SamplingField::Grammar);
    }
    assert(fields@ =~= fields_of(advanced));
    fields
}

/// Whether the cursors of an overlay point at existing rows.
pub open spec fn overlay_wf<E>(o: Overlay<E>) -> bool {
    match o {
        Overlay::Control { cursor } => cursor < CONTROL_ROWS,
        Overlay::LlmParameters { cursor, advanced, .. } => cursor < fields_of(advanced).len(),
        Overlay::Profiles { cursor, names } => cursor < names@.len() || names@.len() == 0,
        _ => true,
    }
}

/// Tests that the cursors of an overlay point at existing rows.
pub fn overlay_fits<E>(overlay: &Overlay<E>) -> (r: bool)
    ensures
        r == overlay_wf(*overlay),
{
    match overlay {
        Overlay::Control { cursor } => *cursor < CONTROL_ROWS,
        Overlay::LlmParameters { cursor, advanced, .. } => *cursor < sampling_fields(*advanced).len(),
        Overlay::Profiles { cursor, names } => *cursor < names.len() || names.len() == 0,
        _ => true,
    }
}

/// What handling a key in an overlay asks of the caller.
pub enum OverlayOutcome<E> {
    /// Show this overlay next; `None` closes it.
    Show(Option<Overlay<E>>),
    /// Close the overlay and exit the application.
    Exit,
    /// Delete this session; the overlay closes.
    DeleteSession(String),
    /// Open the additional-instructions editor on the saved instructions.
    OpenInstructions,
    /// Open the profile list on the available profiles.
    OpenProfiles,
    /// Save the editor's content, then show the control menu on its instructions row.
    SaveInstructions(E),
    /// Pass the key to the instructions editor and keep editing.
    EditInstructions(E),
    /// Toggle the profile `names[cursor]` of the active session and keep the list.
    ToggleProfile { cursor: usize, names: Vec<String> },
    /// Pass the key to the draft editor and keep editing.
    EditDraft { cursor: usize, advanced: bool, editor: E },
    /// Apply the draft to `field`, then show the parameters without a draft.
    ApplyDraft { cursor: usize, advanced: bool, field: SamplingField, editor: E },
    /// Open a draft editor on the current value of `field`.
    OpenDraft { cursor: usize, advanced: bool, field: SamplingField },
}

/// One row up, stopping at the first.
pub open spec fn up(cursor: usize) -> usize {
    if cursor > 0 { (cursor - 1) as usize } else { 0 }
}

/// One row down, stopping at `last`.
pub open spec fn down_to(cursor: usize, last: int) -> usize {
    if cursor + 1 <= last { (cursor + 1) as usize } else if last >= 0 { last as usize } else { 0 }
}

/// The outcome of a key in the control menu.
pub open spec fn control_outcome<E>(cursor: usize, action: Option<UiAction>, accelerator: Option<char>) -> OverlayOutcome<E> {
    let (cursor, selected): (usize, Option<usize>) = match action {
        Some(UiAction::MoveUp) => (up(cursor), None),
        Some(UiAction::MoveDown) => (down_to(cursor, CONTROL_ROWS - 1), None),
        _ => if accelerator is Some {
            (cursor, match accelerator {
                Some('M') => Some(0usize),
                Some('I') => Some(1usize),
                Some('F') => Some(2usize),
                Some('Q') => Some(3usize),
                _ => None,
            })
        } else if action == Some(UiAction::Activate) {
            (cursor, Some(cursor))
        } else {
            (cursor, None)
        },
    };
    match selected {
        Some(0usize) => OverlayOutcome::Show(Some(Overlay::LlmParameters { cursor: 0, advanced: false, draft: None })),
        Some(1usize) => OverlayOutcome::OpenInstructions,
        Some(2usize) => OverlayOutcome::OpenProfiles,
        Some(_) => OverlayOutcome::Exit,
        None => if action == Some(UiAction::Back) {
            OverlayOutcome::Show(None)
        } else {
            OverlayOutcome::Show(Some(Overlay::Control { cursor }))
        },
    }
}

/// The outcome of a key in an overlay. `accelerator` is the menu letter typed, and `save`
/// whether the key is the save shortcut of the instructions editor.
pub open spec fn overlay_outcome<E>(o: Overlay<E>, action: Option<UiAction>, accelerator: Option<char>, save: bool) -> OverlayOutcome<E> {
    if action == Some(UiAction::Interrupt) {
        OverlayOutcome::Show(Some(o))
    } else {
        match o {
            Overlay::Error { title, message, exit_on_close } => if action == Some(UiAction::Activate) || action
                == Some(UiAction::Back) {
                if exit_on_close {
                    OverlayOutcome::Exit
                } else {
                    OverlayOutcome::Show(None)
                }
            } else {
                OverlayOutcome::Show(Some(Overlay::Error { title, message, exit_on_close }))
            },
            Overlay::ConfirmDelete(id) => if action == Some(UiAction::Activate) {
                OverlayOutcome::DeleteSession(id)
            } else if action == Some(UiAction::Back) {
                OverlayOutcome::Show(None)
            } else {
                OverlayOutcome::Show(Some(Overlay::ConfirmDelete(id)))
            },
            Overlay::Control { cursor } => control_outcome(cursor, action, accelerator),
            Overlay::AdditionalInstructions { editor } => if save {
                OverlayOutcome::SaveInstructions(editor)
            } else if action == Some(UiAction::Back) {
                OverlayOutcome::Show(Some(Overlay::Control { cursor: 1 }))
            } else {
                OverlayOutcome::EditInstructions(editor)
            },
            Overlay::Profiles { cursor, names } => if action == Some(UiAction::MoveUp) {
                OverlayOutcome::Show(Some(Overlay::Profiles { cursor: up(cursor), names }))
            } else if action == Some(UiAction::MoveDown) {
                OverlayOutcome::Show(Some(Overlay::Profiles { cursor: down_to(cursor, names@.len() - 1), names }))
            } else if action == Some(UiAction::Activate) && names@.len() > 0 {
                OverlayOutcome::ToggleProfile { cursor, names }
            } else if action == Some(UiAction::Back) {
                OverlayOutcome::Show(Some(Overlay::Control { cursor: 2 }))
            } else {
                OverlayOutcome::Show(Some(Overlay::Profiles { cursor, names }))
            },
            Overlay::LlmParameters { cursor, advanced, draft } => {
                let fields = fields_of(advanced);
                match draft {
                    Some(editor) => if action == Some(UiAction::Back) {
                        OverlayOutcome::Show(Some(Overlay::LlmParameters { cursor, advanced, draft: None }))
                    } else if action == Some(UiAction::Activate) {
                        OverlayOutcome::ApplyDraft { cursor, advanced, field: fields[cursor as int], editor }
                    } else {
                        OverlayOutcome::EditDraft { cursor, advanced, editor }
                    },
                    None => if action == Some(UiAction::Back) {
                        OverlayOutcome::Show(Some(Overlay::Control { cursor: 0 }))
                    } else if action == Some(UiAction::MoveUp) {
                        OverlayOutcome::Show(Some(Overlay::LlmParameters { cursor: up(cursor), advanced, draft: None }))
                    } else if action == Some(UiAction::MoveDown) {
                        OverlayOutcome::Show(Some(Overlay::LlmParameters {
                            cursor: down_to(cursor, fields.len() - 1),
                            advanced,
                            draft: None,
                        }))
                    } else if action == Some(UiAction::Activate) && fields[cursor as int] == SamplingField::Advanced {
                        let last = fields_of(!advanced).len() - 1;
                        OverlayOutcome::Show(Some(Overlay::LlmParameters {
                            cursor: if cursor <= last { cursor } else { last as usize },
                            advanced: !advanced,
                            draft: None,
                        }))
                    } else if action == Some(UiAction::Activate) {
                        OverlayOutcome::OpenDraft { cursor, advanced, field: fields[cursor as int] }
                    } else {
                        OverlayOutcome::Show(Some(Overlay::LlmParameters { cursor, advanced, draft: None }))
                    },
                }
            },
        }
    }
}

/// The overlays an outcome shows are well formed.
pub open spec fn outcome_wf<E>(r: OverlayOutcome<E>) -> bool {
    match r {
        OverlayOutcome::Show(Some(o)) => overlay_wf(o),
        OverlayOutcome::ToggleProfile { cursor, names } => cursor < names@.len(),
        OverlayOutcome::EditDraft { cursor, advanced, .. } => cursor < fields_of(advanced).len(),
        OverlayOutcome::ApplyDraft { cursor, advanced, .. } => cursor < fields_of(advanced).len(),
        OverlayOutcome::OpenDraft { cursor, advanced, .. } => cursor < fields_of(advanced).len(),
        _ => true,
    }
}

fn row_up(cursor: usize) -> (r: usize)
    ensures
        r == up(cursor),
{
    if cursor > 0 { cursor - 1 } else { 0 }
}

/// One row down; `rows` is the number of rows (at least one).
fn row_down(cursor: usize, rows: usize) -> (r: usize)
    requires
        rows >= 1,
    ensures
        r == down_to(cursor, rows - 1),
{
    if cursor < rows - 1 { cursor + 1 } else { rows - 1 }
}

/// Decides what a key does in an overlay.
pub fn overlay_key<E>(overlay: Overlay<E>, action: Option<UiAction>, accelerator: Option<char>, save: bool) -> (r: OverlayOutcome<E>)
    requires
        overlay_wf(overlay),
    ensures
        r == overlay_outcome(overlay, action, accelerator, save),
        outcome_wf(r),
{
    if overlay_consumes_interrupt(action) {
        return OverlayOutcome::Show(Some(overlay));
    }
    let is_activate = match action {
        Some(UiAction::Activate) => true,
        _ => false,
    };
    let is_back = match action {
        Some(UiAction::Back) => true,
        _ => false,
    };
    let is_up = match action {
        Some(UiAction::MoveUp) => true,
        _ => false,
    };
    let is_down = match action {
        Some(UiAction::MoveDown) => true,
        _ => false,
    };
    match overlay {
        Overlay::Error { title, message, exit_on_close } => if is_activate || is_back {
            if exit_on_close {
                OverlayOutcome::Exit
            } else {
                OverlayOutcome::Show(None)
            }
        } else {
            OverlayOutcome::Show(Some(Overlay::Error { title, message, exit_on_close }))
        },
        Overlay::ConfirmDelete(id) => if is_activate {
            OverlayOutcome::DeleteSession(id)
        } else if is_back {
            OverlayOutcome::Show(None)
        } else {
            OverlayOutcome::Show(Some(Overlay::ConfirmDelete(id)))
        },
        Overlay::Control { cursor } => {
            let mut cursor = cursor;
            let selected: Option<usize> = if is_up {
                cursor = row_up(cursor);
                None
            } else if is_down {
                cursor = row_down(cursor, CONTROL_ROWS);
                None
            } else {
                match accelerator {
                    Some(letter) => if letter == 'M' {
                        Some(0)
                    } else if letter == 'I' {
                        Some(1)
                    } else if letter == 'F' {
                        Some(2)
                    } else if letter == 'Q' {
                        Some(3)
                    } else {
                        None
                    },
                    None => if is_activate {
                        Some(cursor)
                    } else {
                        None
                    },
                }
            };
            match selected {
                Some(0) => OverlayOutcome::Show(Some(Overlay::LlmParameters { cursor: 0, advanced: false, draft: None })),
                Some(1) => OverlayOutcome::OpenInstructions,
                Some(2) => OverlayOutcome::OpenProfiles,
                Some(_) => OverlayOutcome::Exit,
                None => if is_back {
                    OverlayOutcome::Show(None)
                } else {
                    OverlayOutcome::Show(Some(Overlay::Control { cursor }))
                },
            }
        },
        Overlay::AdditionalInstructions { editor } => if save {
            OverlayOutcome::SaveInstructions(editor)
        } else if is_back {
            OverlayOutcome::Show(Some(Overlay::Control { cursor: 1 }))
        } else {
            OverlayOutcome::EditInstructions(editor)
        },
        Overlay::Profiles { cursor, names } => if is_up {
            OverlayOutcome::Show(Some(Overlay::Profiles { cursor: row_up(cursor), names }))
        } else if is_down {
            let next = if names.len() == 0 { 0 } else { row_down(cursor, names.len()) };
            OverlayOutcome::Show(Some(Overlay::Profiles { cursor: next, names }))
        } else if is_activate && names.len() > 0 {
            OverlayOutcome::ToggleProfile { cursor, names }
        } else if is_back {
            OverlayOutcome::Show(Some(Overlay::Control { cursor: 2 }))
        } else {
            OverlayOutcome::Show(Some(Overlay::Profiles { cursor, names }))
        },
        Overlay::LlmParameters { cursor, advanced, draft } => {
            let fields = sampling_fields(advanced);
            match draft {
                Some(editor) => if is_back {
                    OverlayOutcome::Show(Some(Overlay::LlmParameters { cursor, advanced, draft: None }))
                } else if is_activate {
                    OverlayOutcome::ApplyDraft { cursor, advanced, field: fields[cursor], editor }
                } else {
                    OverlayOutcome::EditDraft { cursor, advanced, editor }
                },
                None => if is_back {
                    OverlayOutcome::Show(Some(Overlay::Control { cursor: 0 }))
                } else if is_up {
                    OverlayOutcome::Show(Some(Overlay::LlmParameters { cursor: row_up(cursor), advanced, draft: None }))
                } else if is_down {
                    OverlayOutcome::Show(Some(Overlay::LlmParameters {
                        cursor: row_down(cursor, fields.len()),
                        advanced,
                        draft: None,
                    }))
                } else if is_activate && fields[cursor] == SamplingField::Advanced {
                    let toggled = sampling_fields(!advanced);
                    let last = toggled.len() - 1;
                    OverlayOutcome::Show(Some(Overlay::LlmParameters {
                        cursor: if cursor <= last { cursor } else { last },
                        advanced: !advanced,
                        draft: None,
                    }))
                } else if is_activate {
                    OverlayOutcome::OpenDraft { cursor, advanced, field: fields[cursor] }
                } else {
                    OverlayOutcome::Show(Some(Overlay::LlmParameters { cursor, advanced, draft: None }))
                },
            }
        },
    }
}

// ---------------------------------------------------------------------------
// The main screen and the model selector
// ---------------------------------------------------------------------------

/// What a key on the main screen asks of the caller.
pub enum MainEffect {
    /// Nothing beyond the presentation change.
    Nothing,
    /// Exit the application.
    Exit,
    /// Interrupt the active work; report it with [`UiState::report_interrupt`].
    Interrupt,
    /// Pass the key to the input editor.
    EditorKey,
    /// Make this session active.
    SelectSession(String),
    /// Create a session; report it with [`UiState::session_created`].
    CreateSession,
    /// Submit the input editor's content; clear the editor when it succeeds.
    Submit,
}

/// How a key changes the main screen.
#[derive(Debug, Clone, Copy, PartialEq, Eq, Structural)]
pub enum MainStep {
    Nothing,
    Exit,
    Interrupt,
    OpenControl,
    Focus(MainFocus),
    EditorKey,
    MoveCursor(bool),
    Scroll(bool),
    FollowBottom,
    ActivateCursor,
    ConfirmDelete,
    Submit,
}

/// The change a key makes on the main screen, by its action, the focus, and whether it is
/// the End key; a message is submitted only when no turn is active and the input is not
/// empty.
pub open spec fn main_step(focus: MainFocus, action: Option<UiAction>, end_key: bool, turn_active: bool, input_empty: bool) -> MainStep {
    match action {
        Some(UiAction::Interrupt) => MainStep::Interrupt,
        Some(UiAction::OpenControl) => MainStep::OpenControl,
        Some(UiAction::Back) => MainStep::Exit,
        Some(UiAction::FocusNext) => MainStep::Focus(next_focus(focus)),
        Some(UiAction::FocusPrevious) => MainStep::Focus(previous_focus(focus)),
        Some(UiAction::MoveUp) => match focus {
            MainFocus::Input => MainStep::EditorKey,
            MainFocus::Sessions => MainStep::MoveCursor(false),
            MainFocus::Session => MainStep::Scroll(false),
        },
        Some(UiAction::MoveDown) => match focus {
            MainFocus::Input => MainStep::EditorKey,
            MainFocus::Sessions => MainStep::MoveCursor(true),
            MainFocus::Session => MainStep::Scroll(true),
        },
        Some(UiAction::Activate) => match focus {
            MainFocus::Sessions => MainStep::ActivateCursor,
            MainFocus::Input => if !turn_active && !input_empty {
                MainStep::Submit
            } else {
                MainStep::Nothing
            },
            MainFocus::Session => MainStep::Nothing,
        },
        Some(UiAction::Delete) => if focus == MainFocus::Sessions {
            MainStep::ConfirmDelete
        } else {
            MainStep::Nothing
        },
        None => match focus {
            MainFocus::Session => if end_key {
                MainStep::FollowBottom
            } else {
                MainStep::Nothing
            },
            MainFocus::Input => MainStep::EditorKey,
            MainFocus::Sessions => MainStep::Nothing,
        },
    }
}

/// The model selector's answer to a key.
#[derive(Debug, Clone, Copy, PartialEq, Eq, Structural)]
pub enum ModelSelectStep {
    /// Quit without loading a model.
    Exit,
    /// Move the cursor here.
    Move(usize),
    /// Load the model under the cursor.
    Confirm(usize),
    /// Ignore the key.
    Ignore,
}

/// Decides what a key does in the startup model selector with `count` models.
pub fn model_select_key(cursor: usize, count: usize, action: Option<UiAction>) -> (r: ModelSelectStep)
    ensures
        r == (match action {
            Some(UiAction::Back) => ModelSelectStep::Exit,
            Some(UiAction::MoveUp) => ModelSelectStep::Move(up(cursor)),
            Some(UiAction::MoveDown) => ModelSelectStep::Move(
                if count == 0 { 0 } else { down_to(cursor, count - 1) },
            ),
            Some(UiAction::Activate) => ModelSelectStep::Confirm(cursor),
            _ => ModelSelectStep::Ignore,
        }),
{
    match action {
        Some(UiAction::Back) => ModelSelectStep::Exit,
        Some(UiAction::MoveUp) => ModelSelectStep::Move(row_up(cursor)),
        Some(UiAction::MoveDown) => ModelSelectStep::Move(if count == 0 { 0 } else { row_down(cursor, count) }),
        Some(UiAction::Activate) => ModelSelectStep::Confirm(cursor),
        _ => ModelSelectStep::Ignore,
    }
}

impl<E> UiState<E> {
    /// Handles a key on the main screen (no overlay is open). `end_key` tells whether the
    /// key is End; `turn_active` and `input_empty` decide whether Enter submits.
    pub fn main_key(&mut self, snapshot: &AppSnapshot, action: Option<UiAction>, end_key: bool, turn_active: bool, input_empty: bool) -> (r: MainEffect)
        ensures
            final(self).editor() == old(self).editor(),
            final(self).content_lines() == old(self).content_lines(),
            final(self).viewport_lines() == old(self).viewport_lines(),
            final(self).list_offset() == old(self).list_offset(),
            ({
                let step = main_step(old(self).focused(), action, end_key, turn_active, input_empty);
                let unchanged_view = final(self).offset() == old(self).offset() && final(self).follows_bottom() == old(self).follows_bottom();
                let unchanged_rail = final(self).focused() == old(self).focused() && final(self).cursor() == old(self).cursor();
                match step {
                    MainStep::Nothing => r is Nothing && unchanged_rail && unchanged_view && final(self).open_overlay() == old(self).open_overlay(),
                    MainStep::Exit => r is Exit && unchanged_rail && unchanged_view && final(self).open_overlay() == old(self).open_overlay(),
                    MainStep::Interrupt => r is Interrupt && unchanged_rail && unchanged_view && final(self).open_overlay() == old(self).open_overlay(),
                    MainStep::EditorKey => r is EditorKey && unchanged_rail && unchanged_view && final(self).open_overlay() == old(self).open_overlay(),
                    MainStep::Submit => r is Submit && unchanged_rail && unchanged_view && final(self).open_overlay() == old(self).open_overlay(),
                    MainStep::OpenControl => r is Nothing && unchanged_rail && unchanged_view
                        && final(self).open_overlay() == Some(Overlay::<E>::Control { cursor: 0 }),
                    MainStep::Focus(f) => r is Nothing && final(self).focused() == f && final(self).cursor() == old(self).cursor()
                        && unchanged_view && final(self).open_overlay() == old(self).open_overlay(),
                    MainStep::MoveCursor(down) => {
                        &&& final(self).cursor() == moved_cursor(session_ids(*snapshot), old(self).cursor(), down)
                        &&& final(self).focused() == old(self).focused()
                        &&& final(self).open_overlay() == old(self).open_overlay()
                        &&& final(self).offset() == old(self).offset()
                        &&& match final(self).cursor() {
                            Some(id) => r matches MainEffect::SelectSession(s) && s@ == id && final(self).follows_bottom(),
                            None => r is Nothing && final(self).follows_bottom() == old(self).follows_bottom(),
                        }
                    },
                    MainStep::Scroll(down) => {
                        &&& r is Nothing
                        &&& unchanged_rail
                        &&& final(self).open_overlay() == old(self).open_overlay()
                        &&& final(self).transcript() == scrolled(old(self).transcript(), down)
                    },
                    MainStep::FollowBottom => r is Nothing && unchanged_rail && final(self).offset() == old(self).offset()
                        && final(self).follows_bottom() && final(self).open_overlay() == old(self).open_overlay(),
                    MainStep::ActivateCursor => unchanged_rail && final(self).offset() == old(self).offset()
                        && final(self).open_overlay() == old(self).open_overlay() && match old(self).cursor() {
                        Some(id) => r matches MainEffect::SelectSession(s) && s@ == id && final(self).follows_bottom(),
                        None => r is CreateSession && final(self).follows_bottom() == old(self).follows_bottom(),
                    },
                    MainStep::ConfirmDelete => r is Nothing && unchanged_rail && unchanged_view && match old(self).cursor() {
                        Some(id) => final(self).open_overlay() matches Some(Overlay::ConfirmDelete(d)) && d@ == id,
                        None => final(self).open_overlay() == old(self).open_overlay(),
                    },
                }
            }),
    {
        match action {
            Some(UiAction::Interrupt) => MainEffect::Interrupt,
            Some(UiAction::OpenControl) => {
                self.overlay = Some(Overlay::Control { cursor: 0 });
                MainEffect::Nothing
            },
            Some(UiAction::Back) => MainEffect::Exit,
            Some(UiAction::FocusNext) => {
                self.focus_next();
                MainEffect::Nothing
            },
            Some(UiAction::FocusPrevious) => {
                self.focus_previous();
                MainEffect::Nothing
            },
            Some(UiAction::MoveUp) | Some(UiAction::MoveDown) => {
                let down = match action {
                    Some(UiAction::MoveDown) => true,
                    _ => false,
                };
                match self.focus {
                    MainFocus::Input => MainEffect::EditorKey,
                    MainFocus::Sessions => {
                        self.move_session_cursor(snapshot, down);
                        match &self.session_cursor {
                            SessionCursor::Session(id) => {
                                let id = id.clone();
                                self.follow_transcript_bottom();
                                MainEffect::SelectSession(id)
                            },
                            SessionCursor::NewSession => MainEffect::Nothing,
                        }
                    },
                    MainFocus::Session => {
                        self.scroll_transcript(down);
                        MainEffect::Nothing
                    },
                }
            },
            Some(UiAction::Activate) => match self.focus {
                MainFocus::Sessions => match &self.session_cursor {
                    SessionCursor::NewSession => MainEffect::CreateSession,
                    SessionCursor::Session(id) => {
                        let id = id.clone();
                        self.follow_transcript_bottom();
                        MainEffect::SelectSession(id)
                    },
                },
                MainFocus::Input => if !turn_active && !input_empty {
                    MainEffect::Submit
                } else {
                    MainEffect::Nothing
                },
                MainFocus::Session => MainEffect::Nothing,
            },
            Some(UiAction::Delete) => {
                if self.focus == MainFocus::Sessions {
                    match &self.session_cursor {
                        SessionCursor::Session(id) => {
                            self.overlay = Some(Overlay::ConfirmDelete(id.clone()));
                        },
                        SessionCursor::NewSession => {},
                    }
                }
                MainEffect::Nothing
            },
            None => match self.focus {
                MainFocus::Session => {
                    if end_key {
                        self.follow_transcript_bottom();
                    }
                    MainEffect::Nothing
                },
                MainFocus::Input => MainEffect::EditorKey,
                MainFocus::Sessions => MainEffect::Nothing,
            },
        }
    }

    /// Records a newly created session: the cursor moves to it, the input takes focus, and
    /// the transcript follows new output.
    pub fn session_created(&mut self, id: String)
        ensures
            final(self).cursor() == Some(id@),
            final(self).focused() == MainFocus::Input,
            final(self).follows_bottom(),
            final(self).offset() == old(self).offset(),
            final(self).open_overlay() == old(self).open_overlay(),
            final(self).editor() == old(self).editor(),
    {
        self.session_cursor = SessionCursor::Session(id);
        self.focus = MainFocus::Input;
        self.follow_transcript_bottom();
    }

    /// Reports an interruption: when work was interrupted, the user is told so.
    pub fn report_interrupt(&mut self, interrupted: bool)
        ensures
            interrupted ==> (final(self).open_overlay() matches Some(Overlay::Error { title, message, exit_on_close })
                && title@ == " INTERRUPTED "@ && message@ == "Interrupted by user."@ && !exit_on_close),
            !interrupted ==> final(self).open_overlay() == old(self).open_overlay(),
            final(self).focused() == old(self).focused(),
            final(self).cursor() == old(self).cursor(),
            final(self).editor() == old(self).editor(),
    {
        if interrupted {
            self.show_error(String::from_str(" INTERRUPTED "), String::from_str("Interrupted by user."));
        }
    }
}

// ---------------------------------------------------------------------------
// Edited sampling values
// ---------------------------------------------------------------------------

/// Whether an edited value asks for the server's default: it is empty after trimming, or
/// `default` in any ASCII case.
pub open spec fn asks_default(value: Seq<char>) -> bool {
    let v = trim(value);
    v.len() == 0 || eq_ignore_ascii_case(v, "default"@)
}

/// Tests an edited value for a request of the server's default.
pub fn requests_default(value: &str) -> (r: bool)
    ensures
        r == asks_default(value@),
{
    let cs = chars_of(value);
    let (a, b) = trim_range(cs.as_slice(), 0, cs.len());
    proof {
        assert(cs@.subrange(0, cs@.len() as int) =~= cs@);
    }
    a == b || range_eq_ignore_ascii_case(cs.as_slice(), a, b, "default")
}

/// The comma-separated fields of a sequence.
pub open spec fn comma_fields(s: Seq<char>) -> Seq<Seq<char>>
    decreases s.len(),
{
    match s.index_of_first(',') {
        Some(k) => if 0 <= k < s.len() {
            seq![s.subrange(0, k)] + comma_fields(s.subrange(k + 1, s.len() as int))
        } else {
            seq![s]
        },
        None => seq![s],
    }
}

/// The trimmed, non-empty fields among `fields`.
pub open spec fn nonempty_trimmed(fields: Seq<Seq<char>>) -> Seq<Seq<char>>
    decreases fields.len(),
{
    if fields.len() == 0 {
        Seq::empty()
    } else {
        let rest = nonempty_trimmed(fields.drop_last());
        if trim(fields.last()).len() > 0 {
            rest.push(trim(fields.last()))
        } else {
            rest
        }
    }
}

/// The stop sequences an edited value sets: none for the default, otherwise its trimmed,
/// non-empty comma-separated fields.
pub open spec fn stop_list(value: Seq<char>) -> Seq<Seq<char>> {
    if asks_default(value) {
        Seq::empty()
    } else {
        nonempty_trimmed(comma_fields(trim(value)))
    }
}

/// The fields of `cs[p..hi]`, which contains no comma after the fields already taken.
proof fn lemma_comma_fields_step(s: Seq<char>, k: int)
    requires
        0 <= k < s.len(),
        s[k] == ',',
        forall|j: int| 0 <= j < k ==> s[j] != ',',
    ensures
        comma_fields(s) == seq![s.subrange(0, k)] + comma_fields(s.subrange(k + 1, s.len() as int)),
{
    s.index_of_first_ensures(',');
    assert(s.contains(','));
    let f = s.index_of_first(',')->Some_0;
    assert(f == k) by {
        if f < k {
            assert(s[f] != ',');
        }
    }
}

proof fn lemma_comma_fields_last(s: Seq<char>)
    requires
        forall|j: int| 0 <= j < s.len() ==> s[j] != ',',
    ensures
        comma_fields(s) == seq![s],
{
    s.index_of_first_ensures(',');
    assert(!s.contains(','));
}

/// The stop sequences an edited value sets.
pub fn stop_sequences(value: &str) -> (r: Vec<String>)
    ensures
        strings_of(r@) == stop_list(value@),
{
    if requests_default(value) {
        let r: Vec<String> = Vec::new();
        assert(strings_of(r@) =~= Seq::<Seq<char>>::empty());
        return r;
    }
    let cs = chars_of(value);
    let (a, b) = trim_range(cs.as_slice(), 0, cs.len());
    proof {
        assert(cs@.subrange(0, cs@.len() as int) =~= cs@);
    }
    let ghost t = cs@.subrange(a as int, b as int);
    let mut out: Vec<String> = Vec::new();
    let mut p = a;
    let ghost mut taken: Seq<Seq<char>> = Seq::empty();
    proof {
        assert(t.subrange(0, t.len() as int) =~= t);
        assert(strings_of(out@) =~= nonempty_trimmed(taken));
    }
    loop
        invariant
            a <= p <= b <= cs@.len(),
            t == cs@.subrange(a as int, b as int),
            t == trim(value@),
            !asks_default(value@),
            comma_fields(t) == taken + comma_fields(cs@.subrange(p as int, b as int)),
            strings_of(out@) == nonempty_trimmed(taken),
        decreases b - p,
    {
        let mut k = p;
        while k < b && cs[k] != ','
            invariant
                p <= k <= b <= cs@.len(),
                forall|j: int| p <= j < k ==> cs@[j] != ',',
            decreases b - k,
        {
            k = k + 1;
        }
        let ghost rest = cs@.subrange(p as int, b as int);
        let ghost field = cs@.subrange(p as int, k as int);
        let (fa, fb) = trim_range(cs.as_slice(), p, k);
        let ghost before = out@;
        if fa < fb {
            out.push(string_from_range(cs.as_slice(), fa, fb));
        }
        proof {
            assert(rest.subrange(0, k - p) =~= field);
            let next = nonempty_trimmed(taken.push(field));
            assert(taken.push(field).drop_last() =~= taken);
            assert(taken.push(field).last() == field);
            assert(cs@.subrange(fa as int, fb as int) == trim(field));
            if fa < fb {
                assert(strings_of(out@) =~= strings_of(before).push(trim(field)));
                assert(next == nonempty_trimmed(taken).push(trim(field)));
            } else {
                assert(strings_of(out@) =~= strings_of(before));
                assert(next == nonempty_trimmed(taken));
            }
            assert(strings_of(out@) == next);
        }
        if k == b {
            proof {
                assert forall|j: int| 0 <= j < rest.len() implies rest[j] != ',' by {
                    assert(rest[j] == cs@[p + j]);
                }
                lemma_comma_fields_last(rest);
                assert(rest =~= field);
                assert(comma_fields(t) == taken.push(field));
            }
            return out;
        }
        proof {
            assert forall|j: int| 0 <= j < k - p implies rest[j] != ',' by {
                assert(rest[j] == cs@[p + j]);
            }
            lemma_comma_fields_step(rest, k - p);
            assert(rest.subrange(k - p + 1, rest.len() as int) =~= cs@.subrange(k + 1, b as int));
            assert(taken + (seq![field] + comma_fields(cs@.subrange(k + 1, b as int))) =~= taken.push(field)
                + comma_fields(cs@.subrange(k + 1, b as int)));
            taken = taken.push(field);
        }
        p = k + 1;
    }
}

/// The views of a sequence of strings.
pub open spec fn strings_of(ss: Seq<String>) -> Seq<Seq<char>> {
    ss.map_values(|s: String| s@)
}

// ---------------------------------------------------------------------------
// Laws of the presentation state
// ---------------------------------------------------------------------------

/// Focus cycles through the three regions: three steps forward return to the start, and a
/// step back undoes a step forward.
pub proof fn law_focus_cycle(f: MainFocus)
    ensures
        next_focus(next_focus(next_focus(f))) == f,
        previous_focus(next_focus(f)) == f,
        next_focus(previous_focus(f)) == f,
{
}

/// The selected stored session is always shown: after the list is kept in view, the
/// selected row lies within the rows shown; a row already shown does not move the list.
pub proof fn law_selected_session_is_shown(offset: nat, selected: usize, rows: nat)
    requires
        rows > 0,
    ensures
        list_offset_for(offset, Some(selected), rows) <= selected < list_offset_for(offset, Some(selected), rows) + rows,
        offset <= selected < offset + rows ==> list_offset_for(offset, Some(selected), rows) == offset,
{
}

/// While the transcript follows new output, every render shows its last line.
pub proof fn law_following_shows_the_last_line(p: TranscriptPosition, content: nat, viewport: nat)
    requires
        p.follow,
    ensures
        synced(p, content, viewport).offset == last_offset(content, viewport),
        synced(p, content, viewport).follow,
{
}

/// A position the user chose is kept when the transcript grows.
pub proof fn law_manual_position_is_kept(p: TranscriptPosition, content: nat, viewport: nat)
    requires
        !p.follow,
        p.offset < last_offset(content, viewport),
    ensures
        synced(p, content, viewport).offset == p.offset,
        !synced(p, content, viewport).follow,
{
}

/// Scrolling down onto the last line, or onto the line before it, resumes following.
pub proof fn law_scrolling_to_the_bottom_resumes_following(p: TranscriptPosition)
    requires
        p.offset <= last_offset(p.content, p.viewport),
        last_offset(p.content, p.viewport) <= p.offset + 2,
    ensures
        scrolled(p, true).follow,
        scrolled(p, true).offset == last_offset(p.content, p.viewport),
{
}

/// Asking to follow new output shows the last line at the next render.
pub proof fn law_follow_then_render_shows_the_last_line(p: TranscriptPosition, content: nat, viewport: nat)
    ensures
        synced(followed(p), content, viewport).offset == last_offset(content, viewport),
{
}

/// Scrolling never leaves the rendered range: the offset stays at most the last offset.
pub proof fn law_scrolling_stays_in_range(p: TranscriptPosition, down: bool)
    requires
        p.offset <= last_offset(p.content, p.viewport),
    ensures
        scrolled(p, down).offset <= last_offset(p.content, p.viewport),
{
}

/// The arrow keys move in opposite directions: a pressed Up key (whatever modifiers are
/// held) moves the rail cursor up and scrolls the transcript back, never forward; a pressed
/// Down key moves the cursor down and scrolls forward, never back.
pub proof fn law_arrow_keys_move_opposite_ways(modifiers: KeyModifiers, p: TranscriptPosition, turn_active: bool, input_empty: bool)
    requires
        p.offset <= last_offset(p.content, p.viewport),
    ensures
        ({
            let up = KeyInput { key: Key::Up, modifiers, press: true };
            let down = KeyInput { key: Key::Down, modifiers, press: true };
            &&& action_of(up) == Some(UiAction::MoveUp)
            &&& action_of(down) == Some(UiAction::MoveDown)
            &&& main_step(MainFocus::Sessions, action_of(up), false, turn_active, input_empty) == MainStep::MoveCursor(false)
            &&& main_step(MainFocus::Sessions, action_of(down), false, turn_active, input_empty) == MainStep::MoveCursor(true)
            &&& main_step(MainFocus::Session, action_of(up), false, turn_active, input_empty) matches MainStep::Scroll(d1)
                && scrolled(p, d1).offset <= p.offset
            &&& main_step(MainFocus::Session, action_of(down), false, turn_active, input_empty) matches MainStep::Scroll(d2)
                && scrolled(p, d2).offset >= p.offset
        }),
{
}

} // verus!
