use pinentry_wayland::input::{DialogResult, InputAction, InputState};
use pinentry_wayland::keysym::{
    keysym_to_char, KEYSYM_BACKSPACE, KEYSYM_ESCAPE, KEYSYM_KP_ENTER, KEYSYM_RETURN,
};

const KEY_V: u32 = 0x76;
const KEY_A: u32 = 0x61;

fn type_str(state: &mut InputState, text: &str) {
    for c in text.chars() {
        state.handle_key(c as u32);
    }
}

#[test]
fn printable_keys_then_enter_confirm_the_secret() {
    let mut state = InputState::new();
    type_str(&mut state, "1");
    type_str(&mut state, "2");
    type_str(&mut state, "3");
    state.handle_key(KEYSYM_RETURN);
    let result = state.take_result();
    assert_eq!(result, Some(DialogResult::Confirmed(vec!['1', '2', '3'])));
}

#[test]
fn keypad_enter_confirms_too() {
    let mut state = InputState::new();
    type_str(&mut state, "ok");
    state.handle_key(KEYSYM_KP_ENTER);
    assert_eq!(
        state.take_result(),
        Some(DialogResult::Confirmed(vec!['o', 'k']))
    );
}

#[test]
fn concatenation_order_is_kept() {
    let mut state = InputState::new();
    type_str(&mut state, "pa$s w0rd!");
    state.handle_key(KEYSYM_RETURN);
    assert_eq!(
        state.take_result(),
        Some(DialogResult::Confirmed("pa$s w0rd!".chars().collect()))
    );
}

#[test]
fn backspace_on_empty_secret_is_a_no_op() {
    let mut state = InputState::new();
    let action = state.handle_key(KEYSYM_BACKSPACE);
    assert_eq!(action, InputAction::Redraw);
    assert_eq!(state.secret_len(), 0);
    state.handle_key(KEYSYM_RETURN);
    assert_eq!(state.take_result(), Some(DialogResult::Confirmed(vec![])));
}

#[test]
fn backspace_removes_exactly_the_last_character() {
    let mut state = InputState::new();
    type_str(&mut state, "abc");
    state.handle_key(KEYSYM_BACKSPACE);
    assert_eq!(state.secret_len(), 2);
    state.handle_key(KEYSYM_RETURN);
    assert_eq!(
        state.take_result(),
        Some(DialogResult::Confirmed(vec!['a', 'b']))
    );
}

#[test]
fn backspace_backspace_backspace_never_underflows() {
    let mut state = InputState::new();
    type_str(&mut state, "ab");
    state.handle_key(KEYSYM_BACKSPACE);
    state.handle_key(KEYSYM_BACKSPACE);
    state.handle_key(KEYSYM_BACKSPACE);
    assert_eq!(state.secret_len(), 0);
    state.handle_key(KEYSYM_RETURN);
    assert_eq!(state.take_result(), Some(DialogResult::Confirmed(vec![])));
}

#[test]
fn escape_cancels_regardless_of_input() {
    let mut state = InputState::new();
    type_str(&mut state, "topsecret");
    state.handle_key(KEYSYM_ESCAPE);
    assert_eq!(state.take_result(), Some(DialogResult::Cancelled));
}

#[test]
fn window_close_before_any_key_cancels() {
    let mut state = InputState::new();
    state.handle_close();
    assert_eq!(state.take_result(), Some(DialogResult::Cancelled));
}

#[test]
fn window_close_after_input_cancels_without_the_input() {
    let mut state = InputState::new();
    type_str(&mut state, "abc");
    state.handle_close();
    assert_eq!(state.take_result(), Some(DialogResult::Cancelled));
}

#[test]
fn keys_after_finalization_are_ignored() {
    let mut state = InputState::new();
    type_str(&mut state, "12");
    state.handle_key(KEYSYM_RETURN);
    let action = state.handle_key('9' as u32);
    assert_eq!(action, InputAction::Nothing);
    assert_eq!(state.secret_len(), 2);
    assert_eq!(
        state.take_result(),
        Some(DialogResult::Confirmed(vec!['1', '2']))
    );
}

#[test]
fn escape_after_enter_does_not_overwrite_the_result() {
    let mut state = InputState::new();
    type_str(&mut state, "x");
    state.handle_key(KEYSYM_RETURN);
    state.handle_key(KEYSYM_ESCAPE);
    assert_eq!(
        state.take_result(),
        Some(DialogResult::Confirmed(vec!['x']))
    );
}

#[test]
fn paste_without_payload_and_without_offer_changes_nothing() {
    let mut state = InputState::new();
    type_str(&mut state, "ab");
    state.set_modifiers(true);
    let action = state.handle_key(KEY_V);
    assert_eq!(action, InputAction::Nothing);
    assert_eq!(state.secret_len(), 2);
}

#[test]
fn paste_with_ready_payload_appends_it_exactly_once() {
    let mut state = InputState::new();
    type_str(&mut state, "ab");
    state.clipboard_ready(vec!['c', 'd']);
    state.set_modifiers(true);
    let first = state.handle_key(KEY_V);
    assert_eq!(first, InputAction::Redraw);
    assert_eq!(state.secret_len(), 4);
    // the payload was cleared: a second paste appends nothing more
    let second = state.handle_key(KEY_V);
    assert_eq!(second, InputAction::Nothing);
    assert_eq!(state.secret_len(), 4);
    state.handle_key(KEYSYM_RETURN);
    assert_eq!(
        state.take_result(),
        Some(DialogResult::Confirmed(vec!['a', 'b', 'c', 'd']))
    );
}

#[test]
fn paste_with_pending_offer_begins_a_read_and_leaves_the_secret() {
    let mut state = InputState::new();
    type_str(&mut state, "ab");
    state.offer_arrived();
    state.set_modifiers(true);
    let action = state.handle_key(KEY_V);
    assert_eq!(action, InputAction::BeginClipboardRead);
    assert_eq!(state.secret_len(), 2);
    // the offer was consumed: the next paste without a payload does nothing
    let again = state.handle_key(KEY_V);
    assert_eq!(again, InputAction::Nothing);
    assert_eq!(state.secret_len(), 2);
}

#[test]
fn plain_v_without_ctrl_is_typed_as_a_character() {
    let mut state = InputState::new();
    state.handle_key(KEY_V);
    state.handle_key(KEYSYM_RETURN);
    assert_eq!(
        state.take_result(),
        Some(DialogResult::Confirmed(vec!['v']))
    );
}

#[test]
fn ctrl_a_is_ignored() {
    let mut state = InputState::new();
    type_str(&mut state, "ab");
    state.set_modifiers(true);
    let action = state.handle_key(KEY_A);
    assert_eq!(action, InputAction::Nothing);
    assert_eq!(state.secret_len(), 2);
}

#[test]
fn releasing_ctrl_restores_plain_typing() {
    let mut state = InputState::new();
    state.set_modifiers(true);
    state.set_modifiers(false);
    state.handle_key(KEY_V);
    assert_eq!(state.secret_len(), 1);
}

#[test]
fn unknown_keysyms_are_ignored() {
    let mut state = InputState::new();
    state.handle_key(0xffe1); // a bare shift key
    state.handle_key(0x1f);
    state.handle_key(0x7f);
    assert_eq!(state.secret_len(), 0);
}

#[test]
fn pasted_text_is_not_filtered_to_ascii() {
    let mut state = InputState::new();
    state.clipboard_ready("héllo".chars().collect());
    state.set_modifiers(true);
    state.handle_key(KEY_V);
    assert_eq!(state.secret_len(), 5);
    state.set_modifiers(false);
    state.handle_key(KEYSYM_RETURN);
    assert_eq!(
        state.take_result(),
        Some(DialogResult::Confirmed("héllo".chars().collect()))
    );
}

#[test]
fn space_and_tilde_bound_the_typable_range() {
    let mut state = InputState::new();
    state.handle_key(0x20);
    state.handle_key(0x7e);
    state.handle_key(KEYSYM_RETURN);
    assert_eq!(
        state.take_result(),
        Some(DialogResult::Confirmed(vec![' ', '~']))
    );
}

#[test]
fn keysym_to_char_maps_the_printable_range() {
    assert_eq!(keysym_to_char(0x20), Some(' '));
    assert_eq!(keysym_to_char(0x31), Some('1'));
    assert_eq!(keysym_to_char(0x61), Some('a'));
    assert_eq!(keysym_to_char(0x7e), Some('~'));
    assert_eq!(keysym_to_char(0x1f), None);
    assert_eq!(keysym_to_char(0x7f), None);
    assert_eq!(keysym_to_char(KEYSYM_RETURN), None);
    assert_eq!(keysym_to_char(KEYSYM_ESCAPE), None);
}
