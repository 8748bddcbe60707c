use pinentry_wayland::clipboard::pick_mime;
use pinentry_wayland::dialog::{
    compose_description, decide_confirm, dialog_outcome, ConfirmDecision, PinentryError,
    WaylandPinentry,
};
use pinentry_wayland::font::{choose_font, StartupError};
use pinentry_wayland::input::DialogResult;
use pinentry_wayland::result_slot::ResultSlot;
use pinentry_wayland::session::DialogSession;

#[test]
fn description_combines_error_and_text() {
    let r = compose_description(Some("Bad PIN"), Some("Enter PIN"));
    assert_eq!(r, "Bad PIN\n\nEnter PIN".to_string());
}

#[test]
fn description_with_error_alone_keeps_the_separator() {
    let r = compose_description(Some("Bad PIN"), None);
    assert_eq!(r, "Bad PIN\n\n".to_string());
}

#[test]
fn description_without_error_is_the_text_itself() {
    let r = compose_description(None, Some("Enter PIN"));
    assert_eq!(r, "Enter PIN".to_string());
}

#[test]
fn description_defaults_to_the_fixed_invitation() {
    let r = compose_description(None, None);
    assert_eq!(r, "Please enter your PIN".to_string());
}

#[test]
fn confirmed_dialog_yields_the_secret() {
    let out = dialog_outcome(Some(DialogResult::Confirmed(vec!['1', '2'])));
    assert_eq!(out, Some(vec!['1', '2']));
}

#[test]
fn cancelled_dialog_yields_nothing() {
    assert_eq!(dialog_outcome(Some(DialogResult::Cancelled)), None);
}

#[test]
fn empty_slot_counts_as_cancellation() {
    assert_eq!(dialog_outcome(None), None);
}

#[test]
fn confirm_follows_the_dialog_outcome() {
    assert_eq!(
        decide_confirm(&Some(vec![])),
        ConfirmDecision::Affirmed
    );
    assert_eq!(decide_confirm(&None), ConfirmDecision::Canceled);
}

#[test]
fn pinentry_handler_accepts_a_tty_path() {
    let mut handler = WaylandPinentry::new();
    assert!(handler.set_tty("/dev/tty1".to_string()).is_ok());
}

#[test]
fn thread_panic_error_has_its_message() {
    assert_eq!(
        PinentryError::ThreadPanic.message(),
        "Wayland thread panicked".to_string()
    );
}

#[test]
fn result_slot_first_writer_wins() {
    let mut slot = ResultSlot::new();
    assert!(!slot.is_set());
    assert!(slot.set(DialogResult::Confirmed(vec!['a'])));
    assert!(slot.is_set());
    // a late cancellation cannot overwrite the confirmation
    assert!(!slot.set(DialogResult::Cancelled));
    assert_eq!(
        slot.take(),
        Some(DialogResult::Confirmed(vec!['a']))
    );
    assert!(!slot.is_set());
    assert_eq!(slot.take(), None);
}

#[test]
fn font_selection_takes_the_first_readable_candidate() {
    let r = choose_font(vec![None, Some(vec![1, 2, 3]), Some(vec![9])]);
    assert_eq!(r, Ok(vec![1, 2, 3]));
}

#[test]
fn absent_font_at_all_candidate_paths_is_a_fatal_startup_error() {
    assert_eq!(choose_font(vec![None, None]), Err(StartupError::FontUnavailable));
    assert_eq!(choose_font(vec![]), Err(StartupError::FontUnavailable));
    assert_eq!(
        StartupError::FontUnavailable.message(),
        "no system font found among the candidate paths".to_string()
    );
}

#[test]
fn clipboard_format_preference_order() {
    let all = vec![
        "STRING".to_string(),
        "UTF8_STRING".to_string(),
        "text/plain;charset=utf-8".to_string(),
        "text/plain".to_string(),
    ];
    assert_eq!(pick_mime(&all), Some("text/plain".to_string()));
    let no_plain = vec![
        "STRING".to_string(),
        "text/plain;charset=utf-8".to_string(),
    ];
    assert_eq!(
        pick_mime(&no_plain),
        Some("text/plain;charset=utf-8".to_string())
    );
    assert_eq!(
        pick_mime(&vec!["UTF8_STRING".to_string()]),
        Some("UTF8_STRING".to_string())
    );
    assert_eq!(
        pick_mime(&vec!["STRING".to_string()]),
        Some("STRING".to_string())
    );
}

#[test]
fn unsupported_clipboard_formats_are_skipped() {
    assert_eq!(pick_mime(&vec!["image/png".to_string()]), None);
    assert_eq!(pick_mime(&vec![]), None);
}

#[test]
fn session_starts_unconfigured_at_the_default_size() {
    let session = DialogSession::new(
        "Enter PIN".to_string(),
        "PIN:".to_string(),
        "pinentry".to_string(),
    );
    assert_eq!(session.width, 400);
    assert_eq!(session.height, 200);
    assert!(!session.configured);
    // drawing before the first configure event is a no-op
    assert!(session.compose(&vec![]).is_none());
}

#[test]
fn configure_resizes_and_enables_drawing() {
    let mut session = DialogSession::new(
        "Enter PIN".to_string(),
        "PIN:".to_string(),
        "pinentry".to_string(),
    );
    session.configure(Some((640, 480)));
    assert!(session.configured);
    assert_eq!(session.buffer_len(), 640 * 480 * 4);
    let frame = session.compose(&vec![]).unwrap();
    assert_eq!(frame.width, 640);
    assert_eq!(frame.height, 480);
    assert_eq!(frame.data.len(), 640 * 480 * 4);
}

#[test]
fn configure_without_a_size_keeps_the_old_one() {
    let mut session = DialogSession::new(
        String::new(),
        String::new(),
        String::new(),
    );
    session.configure(None);
    assert_eq!(session.buffer_len(), 400 * 200 * 4);
    assert!(session.compose(&vec![]).is_some());
}

#[test]
fn full_scenario_enter_pin_confirms_123() {
    let mut session = DialogSession::new(
        "Enter PIN".to_string(),
        "PIN:".to_string(),
        "pinentry".to_string(),
    );
    session.configure(None);
    for c in ['1', '2', '3'] {
        session.input.handle_key(c as u32);
    }
    session.input.handle_key(0xff0d);
    let mut slot = ResultSlot::new();
    if let Some(res) = session.input.take_result() {
        slot.set(res);
    }
    let secret = dialog_outcome(slot.take());
    assert_eq!(secret, Some(vec!['1', '2', '3']));
}
