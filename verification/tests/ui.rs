use sigmarift::session::{AppSnapshot, SessionSummary};
use sigmarift::ui::{
    action, control_accelerator, model_select_key, overlay_consumes_interrupt, overlay_fits,
    overlay_key,
    requests_default, sampling_fields, stop_sequences, Key, KeyInput, KeyModifiers, MainEffect,
    MainFocus, ModelSelectStep, Overlay, OverlayOutcome, SamplingField, SessionCursor, UiAction,
    UiState,
};

fn empty_snapshot() -> AppSnapshot {
    AppSnapshot {
        sessions: Vec::new(),
        active_session: None,
    }
}

fn summary(id: &str, title: &str) -> SessionSummary {
    SessionSummary {
        id: id.to_owned(),
        title: title.to_owned(),
    }
}

#[test]
fn control_space_opens_control() {
    let key = KeyInput::new(Key::Char(' '), KeyModifiers::control());
    assert_eq!(action(key), Some(UiAction::OpenControl));
}

#[test]
fn arrows_are_selection_actions() {
    let key = KeyInput::new(Key::Down, KeyModifiers::none());
    assert_eq!(action(key), Some(UiAction::MoveDown));
}

#[test]
fn horizontal_arrows_remain_available_to_the_focused_editor() {
    let left = KeyInput::new(Key::Left, KeyModifiers::none());
    let right = KeyInput::new(Key::Right, KeyModifiers::none());

    assert_eq!(action(left), None);
    assert_eq!(action(right), None);
}

#[test]
fn control_c_interrupts_active_work() {
    let key = KeyInput::new(Key::Char('c'), KeyModifiers::control());
    assert_eq!(action(key), Some(UiAction::Interrupt));
}

#[test]
fn alt_enter_is_left_to_the_editor_and_releases_are_ignored() {
    assert_eq!(action(KeyInput::new(Key::Enter, KeyModifiers::alt())), None);
    assert_eq!(action(KeyInput::new(Key::Enter, KeyModifiers::none())), Some(UiAction::Activate));
    let mut release = KeyInput::new(Key::Esc, KeyModifiers::none());
    release.press = false;
    assert_eq!(action(release), None);
}

#[test]
fn menu_letters_are_plain_ascii_letters() {
    assert_eq!(control_accelerator(KeyInput::new(Key::Char('m'), KeyModifiers::none())), Some('M'));
    assert_eq!(control_accelerator(KeyInput::new(Key::Char('Q'), KeyModifiers::none())), Some('Q'));
    assert_eq!(control_accelerator(KeyInput::new(Key::Char('m'), KeyModifiers::control())), None);
    assert_eq!(control_accelerator(KeyInput::new(Key::Char('1'), KeyModifiers::none())), None);
}

#[test]
fn overlay_consumes_interrupt_instead_of_cancelling_background_work() {
    assert!(overlay_consumes_interrupt(Some(UiAction::Interrupt)));
    assert!(!overlay_consumes_interrupt(Some(UiAction::Activate)));
}

#[test]
fn focus_cycle_follows_the_locked_main_screen_order() {
    let snapshot = empty_snapshot();
    let mut state = UiState::new(&snapshot, ());

    state.focus_next();
    assert_eq!(state.focus, MainFocus::Session);
    state.focus_next();
    assert_eq!(state.focus, MainFocus::Input);
    state.focus_next();
    assert_eq!(state.focus, MainFocus::Sessions);
}

#[test]
fn session_cursor_moves_from_the_new_action_to_the_first_session() {
    let snapshot = AppSnapshot {
        sessions: vec![summary("first", "First"), summary("second", "Second")],
        active_session: None,
    };
    let mut state = UiState::new(&snapshot, ());
    state.session_cursor = SessionCursor::NewSession;

    state.move_session_cursor(&snapshot, true);
    assert_eq!(state.session_cursor, SessionCursor::Session("first".to_owned()));
}

#[test]
fn session_cursor_falls_back_to_the_active_session_after_its_session_is_deleted() {
    let before = AppSnapshot {
        sessions: vec![summary("first", "First"), summary("second", "Second")],
        active_session: None,
    };
    let mut state = UiState::new(&before, ());
    state.session_cursor = SessionCursor::Session("first".to_owned());
    let after = AppSnapshot {
        sessions: vec![summary("second", "Second")],
        active_session: None,
    };

    state.sync_sessions(&after);
    assert_eq!(state.session_cursor, SessionCursor::Session("second".to_owned()));
}

#[test]
fn transcript_keeps_manual_position_when_content_grows() {
    let snapshot = empty_snapshot();
    let mut state = UiState::new(&snapshot, ());
    state.sync_transcript(20, 5);
    state.scroll_transcript(false);
    state.sync_transcript(24, 5);

    assert_eq!(state.transcript_offset(), 14);
}

#[test]
fn transcript_resumes_following_at_the_bottom() {
    let snapshot = empty_snapshot();
    let mut state = UiState::new(&snapshot, ());
    state.sync_transcript(20, 5);
    state.scroll_transcript(false);
    state.scroll_transcript(true);
    state.sync_transcript(24, 5);

    assert_eq!(state.transcript_offset(), 19);
}

#[test]
fn end_of_transcript_resumes_following_output() {
    let snapshot = empty_snapshot();
    let mut state = UiState::new(&snapshot, ());
    state.sync_transcript(20, 5);
    state.scroll_transcript(false);
    state.follow_transcript_bottom();
    state.sync_transcript(24, 5);

    assert_eq!(state.transcript_offset(), 19);
}

#[test]
fn stored_session_list_scrolls_without_a_scrollbar() {
    let snapshot = empty_snapshot();
    let mut state = UiState::new(&snapshot, ());

    state.sync_session_list_scroll(Some(5), 3);
    assert_eq!(state.session_list_offset(), 3);
    state.sync_session_list_scroll(Some(2), 3);
    assert_eq!(state.session_list_offset(), 2);
}

#[test]
fn error_overlay_replaces_the_active_ui_context() {
    let snapshot = empty_snapshot();
    let mut state = UiState::new(&snapshot, ());
    state.overlay = Some(Overlay::Control { cursor: 2 });

    state.show_error(" MODEL ERROR ".to_owned(), "request failed".to_owned());

    assert!(matches!(
        state.overlay,
        Some(Overlay::Error {
            ref title,
            ref message,
            exit_on_close: false,
        }) if title == " MODEL ERROR " && message == "request failed"
    ));
}

#[test]
fn enter_on_a_session_selects_it_and_on_the_new_action_creates_one() {
    let snapshot = AppSnapshot {
        sessions: vec![summary("first", "First")],
        active_session: None,
    };
    let mut state = UiState::new(&snapshot, ());

    assert!(matches!(
        state.main_key(&snapshot, Some(UiAction::Activate), false, false, true),
        MainEffect::SelectSession(id) if id == "first"
    ));
    state.session_cursor = SessionCursor::NewSession;
    assert!(matches!(
        state.main_key(&snapshot, Some(UiAction::Activate), false, false, true),
        MainEffect::CreateSession
    ));
    state.session_created("second".to_owned());
    assert_eq!(state.focus, MainFocus::Input);
    assert!(matches!(
        state.main_key(&snapshot, Some(UiAction::Activate), false, true, false),
        MainEffect::Nothing
    ));
    assert!(matches!(
        state.main_key(&snapshot, Some(UiAction::Activate), false, false, false),
        MainEffect::Submit
    ));
    assert!(matches!(
        state.main_key(&snapshot, Some(UiAction::Back), false, false, false),
        MainEffect::Exit
    ));
}

#[test]
fn control_menu_letters_open_their_rows() {
    let outcome = overlay_key::<()>(Overlay::Control { cursor: 0 }, None, Some('Q'), false);
    assert!(matches!(outcome, OverlayOutcome::Exit));
    let outcome = overlay_key::<()>(Overlay::Control { cursor: 3 }, Some(UiAction::MoveDown), None, false);
    assert!(matches!(outcome, OverlayOutcome::Show(Some(Overlay::Control { cursor: 3 }))));
    let outcome = overlay_key::<()>(Overlay::Control { cursor: 2 }, Some(UiAction::Activate), None, false);
    assert!(matches!(outcome, OverlayOutcome::OpenProfiles));
    let outcome = overlay_key::<()>(Overlay::Control { cursor: 2 }, Some(UiAction::Interrupt), Some('Q'), false);
    assert!(matches!(outcome, OverlayOutcome::Show(Some(Overlay::Control { cursor: 2 }))));
}

#[test]
fn advanced_sampling_rows_expand_and_collapse() {
    assert_eq!(sampling_fields(false).len(), 7);
    assert_eq!(sampling_fields(true).len(), 13);
    let outcome = overlay_key::<()>(
        Overlay::LlmParameters { cursor: 6, advanced: false, draft: None },
        Some(UiAction::Activate),
        None,
        false,
    );
    assert!(matches!(
        outcome,
        OverlayOutcome::Show(Some(Overlay::LlmParameters { cursor: 6, advanced: true, draft: None }))
    ));
    let outcome = overlay_key::<()>(
        Overlay::LlmParameters { cursor: 12, advanced: true, draft: None },
        Some(UiAction::Activate),
        None,
        false,
    );
    assert!(matches!(
        outcome,
        OverlayOutcome::OpenDraft { cursor: 12, advanced: true, field: SamplingField::Grammar }
    ));
}

#[test]
fn model_selector_keys_move_confirm_or_quit() {
    assert_eq!(model_select_key(0, 3, Some(UiAction::MoveDown)), ModelSelectStep::Move(1));
    assert_eq!(model_select_key(2, 3, Some(UiAction::MoveDown)), ModelSelectStep::Move(2));
    assert_eq!(model_select_key(0, 3, Some(UiAction::MoveUp)), ModelSelectStep::Move(0));
    assert_eq!(model_select_key(1, 3, Some(UiAction::Activate)), ModelSelectStep::Confirm(1));
    assert_eq!(model_select_key(1, 3, Some(UiAction::Back)), ModelSelectStep::Exit);
}

#[test]
fn edited_stop_sequences_are_trimmed_fields() {
    assert!(requests_default("  "));
    assert!(requests_default(" Default "));
    assert!(!requests_default("END"));
    assert_eq!(stop_sequences(" END , ,STOP "), vec!["END".to_owned(), "STOP".to_owned()]);
    assert!(stop_sequences("default").is_empty());
}

#[test]
fn overlay_cursors_must_point_at_rows() {
    assert!(overlay_fits::<()>(&Overlay::Control { cursor: 3 }));
    assert!(!overlay_fits::<()>(&Overlay::Control { cursor: 4 }));
    assert!(overlay_fits::<()>(&Overlay::Profiles { cursor: 0, names: Vec::new() }));
    assert!(!overlay_fits::<()>(&Overlay::Profiles { cursor: 1, names: vec!["a".to_owned()] }));
    assert!(overlay_fits::<()>(&Overlay::LlmParameters { cursor: 6, advanced: false, draft: None }));
    assert!(!overlay_fits::<()>(&Overlay::LlmParameters { cursor: 7, advanced: false, draft: None }));
    assert!(overlay_fits::<()>(&Overlay::LlmParameters { cursor: 12, advanced: true, draft: None }));
}
