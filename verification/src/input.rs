//! The input state machine of the dialog: it owns the accumulated secret,
//! the keyboard-modifier snapshot and the pending clipboard payload, consumes
//! key, clipboard and close events, and decides when the session is finalized
//! with a confirmed secret or a cancellation.

use vstd::prelude::*;
use crate::keysym::{
    spec_keysym_to_char, keysym_to_char, KEYSYM_RETURN, KEYSYM_KP_ENTER, KEYSYM_ESCAPE,
    KEYSYM_BACKSPACE, KEYSYM_V_LOWER, KEYSYM_V_UPPER, KEYSYM_A_LOWER, KEYSYM_A_UPPER,
};

verus! {

/// The outcome of one dialog: either the user confirmed the typed secret,
/// or the dialog was cancelled (Escape, window close, or a defensive default).
/// A cancellation deliberately carries no data, so no part of the typed
/// input can leak through it.
#[derive(Debug, PartialEq, Eq)]
pub enum DialogResult {
    Confirmed(Vec<char>),
    Cancelled,
}

/// Mathematical view of a [`DialogResult`]: the confirmed secret as a
/// sequence of characters.
pub enum DialogResultView {
    Confirmed(Seq<char>),
    Cancelled,
}

impl View for DialogResult {
    type V = DialogResultView;

    open spec fn view(&self) -> DialogResultView {
        match self {
            DialogResult::Confirmed(s) => DialogResultView::Confirmed(s@),
            DialogResult::Cancelled => DialogResultView::Cancelled,
        }
    }
}

/// What the event handler asks its caller to do next: nothing, repaint the
/// frame, or begin an asynchronous clipboard read whose payload is handed
/// back later through [`InputState::clipboard_ready`].
#[derive(Debug, Clone, Copy, PartialEq, Eq, Structural)]
pub enum InputAction {
    Nothing,
    Redraw,
    BeginClipboardRead,
}

/// Per-session input state: the secret typed so far, whether Ctrl is held,
/// an optional clipboard payload already read, whether a selection offer is
/// pending (so a paste may start a read), and the finalized result, if any.
pub struct InputState {
    secret: Vec<char>,
    ctrl: bool,
    clipboard: Option<Vec<char>>,
    offer_pending: bool,
    result: Option<DialogResult>,
}

/// Mathematical view of an [`InputState`].
#[verifier::ext_equal]
pub struct InputStateView {
    pub secret: Seq<char>,
    pub ctrl: bool,
    pub clipboard: Option<Seq<char>>,
    pub offer_pending: bool,
    pub result: Option<DialogResultView>,
}

impl View for InputState {
    type V = InputStateView;

    closed spec fn view(&self) -> InputStateView {
        InputStateView {
            secret: self.secret@,
            ctrl: self.ctrl,
            clipboard: match self.clipboard {
                Some(ref p) => Some(p@),
                None => None,
            },
            offer_pending: self.offer_pending,
            result: match self.result {
                Some(ref r) => Some(r@),
                None => None,
            },
        }
    }
}

/// Whether the dialog accepts `c` as part of the secret: printable ASCII in
/// the sense of the dialog, that is alphanumeric, punctuation or whitespace.
pub open spec fn accepts_char(c: char) -> bool {
    let u = c as u32;
    (0x30 <= u && u <= 0x39)  // digit
    || (0x41 <= u && u <= 0x5a)  // upper-case letter
    || (0x61 <= u && u <= 0x7a)  // lower-case letter
    || (0x21 <= u && u <= 0x2f) || (0x3a <= u && u <= 0x40)
    || (0x5b <= u && u <= 0x60) || (0x7b <= u && u <= 0x7e)  // punctuation
    || u == 0x20 || u == 0x09 || u == 0x0a || u == 0x0c || u == 0x0d  // whitespace
}

/// Exec mirror of [`accepts_char`].
pub fn is_accepted_char(c: char) -> (r: bool)
    ensures
        r == accepts_char(c),
{
    let u = c as u32;
    (0x30 <= u && u <= 0x39) || (0x41 <= u && u <= 0x5a) || (0x61 <= u && u <= 0x7a)
        || (0x21 <= u && u <= 0x2f) || (0x3a <= u && u <= 0x40) || (0x5b <= u && u <= 0x60)
        || (0x7b <= u && u <= 0x7e) || u == 0x20 || u == 0x09 || u == 0x0a || u == 0x0c
        || u == 0x0d
}

/// The state an entry session starts in: empty secret, no modifier held, no
/// clipboard payload, no pending offer, no result.
pub open spec fn initial_input_state() -> InputStateView {
    InputStateView {
        secret: Seq::empty(),
        ctrl: false,
        clipboard: None,
        offer_pending: false,
        result: None,
    }
}

/// One transition of the state machine on a key-press event, together with
/// the action the session controller must take. A finalized state ignores
/// every further key.
pub open spec fn key_step(s: InputStateView, keysym: u32) -> (InputStateView, InputAction) {
    if s.result is Some {
        (s, InputAction::Nothing)
    } else if keysym == KEYSYM_RETURN || keysym == KEYSYM_KP_ENTER {
        (
            InputStateView { result: Some(DialogResultView::Confirmed(s.secret)), ..s },
            InputAction::Nothing,
        )
    } else if keysym == KEYSYM_ESCAPE {
        (InputStateView { result: Some(DialogResultView::Cancelled), ..s }, InputAction::Nothing)
    } else if keysym == KEYSYM_BACKSPACE {
        if s.secret.len() == 0 {
            (s, InputAction::Redraw)
        } else {
            (InputStateView { secret: s.secret.drop_last(), ..s }, InputAction::Redraw)
        }
    } else if s.ctrl && (keysym == KEYSYM_V_LOWER || keysym == KEYSYM_V_UPPER) {
        match s.clipboard {
            Some(p) => (
                InputStateView { secret: s.secret + p, clipboard: None, ..s },
                InputAction::Redraw,
            ),
            None => if s.offer_pending {
                (
                    InputStateView { offer_pending: false, ..s },
                    InputAction::BeginClipboardRead,
                )
            } else {
                (s, InputAction::Nothing)
            },
        }
    } else if s.ctrl && (keysym == KEYSYM_A_LOWER || keysym == KEYSYM_A_UPPER) {
        // select-all has no meaning in a redacted field
        (s, InputAction::Nothing)
    } else {
        match spec_keysym_to_char(keysym) {
            Some(c) => if accepts_char(c) {
                (InputStateView { secret: s.secret.push(c), ..s }, InputAction::Redraw)
            } else {
                (s, InputAction::Nothing)
            },
            None => (s, InputAction::Nothing),
        }
    }
}

/// The transition on a window-close request: cancel unless already finalized.
pub open spec fn close_step(s: InputStateView) -> InputStateView {
    if s.result is Some {
        s
    } else {
        InputStateView { result: Some(DialogResultView::Cancelled), ..s }
    }
}

impl InputState {
    /// A fresh input state for a new session.
    pub fn new() -> (s: Self)
        ensures
            s@ == initial_input_state(),
    {
        let s = InputState {
            secret: Vec::new(),
            ctrl: false,
            clipboard: None,
            offer_pending: false,
            result: None,
        };
        proof {
            assert(s@ =~= initial_input_state());
        }
        s
    }

    /// Length of the secret typed so far; this is all the renderer may learn
    /// about the secret.
    pub fn secret_len(&self) -> (n: usize)
        ensures
            n == self@.secret.len(),
    {
        self.secret.len()
    }

    /// Whether the state machine has reached its terminal state.
    pub fn is_finalized(&self) -> (b: bool)
        ensures
            b == (self@.result is Some),
    {
        self.result.is_some()
    }

    /// Moves the finalized result out, for the session's teardown: the
    /// caller publishes it through the write-once result slot, which keeps
    /// the first outcome whatever happens later. `None` while the session is
    /// still running.
    pub fn take_result(&mut self) -> (r: Option<DialogResult>)
        ensures
            match r {
                Some(res) => old(self)@.result == Some(res@),
                None => old(self)@.result is None,
            },
            final(self)@.result is None,
            final(self)@.secret == old(self)@.secret,
    {
        self.result.take()
    }

    /// Records the keyboard-modifier snapshot from a modifier-update event.
    pub fn set_modifiers(&mut self, ctrl: bool) -> (r: ())
        ensures
            final(self)@ == (InputStateView { ctrl, ..old(self)@ }),
    {
        self.ctrl = ctrl;
        proof {
            assert(self@ =~= (InputStateView { ctrl, ..old(self)@ }));
        }
    }

    /// Records that a clipboard selection offer is pending, so the next paste
    /// may begin reading it.
    pub fn offer_arrived(&mut self) -> (r: ())
        ensures
            final(self)@ == (InputStateView { offer_pending: true, ..old(self)@ }),
    {
        self.offer_pending = true;
        proof {
            assert(self@ =~= (InputStateView { offer_pending: true, ..old(self)@ }));
        }
    }

    /// Stores the payload of a completed asynchronous clipboard read; the next
    /// paste key consumes it.
    pub fn clipboard_ready(&mut self, payload: Vec<char>) -> (r: ())
        ensures
            final(self)@ == (InputStateView { clipboard: Some(payload@), ..old(self)@ }),
    {
        self.clipboard = Some(payload);
        proof {
            assert(self@ =~= (InputStateView { clipboard: Some(payload@), ..old(self)@ }));
        }
    }

    /// Consumes one key-press event, exactly as [`key_step`] describes, and
    /// returns the action the session controller must take.
    pub fn handle_key(&mut self, keysym: u32) -> (a: InputAction)
        ensures
            final(self)@ == key_step(old(self)@, keysym).0,
            a == key_step(old(self)@, keysym).1,
    {
        if self.result.is_some() {
            proof {
                assert(self@ =~= key_step(old(self)@, keysym).0);
            }
            return InputAction::Nothing;
        }
        if keysym == KEYSYM_RETURN || keysym == KEYSYM_KP_ENTER {
            let secret_copy = clone_chars(&self.secret);
            self.result = Some(DialogResult::Confirmed(secret_copy));
            proof {
                assert(self@ =~= key_step(old(self)@, keysym).0);
            }
            InputAction::Nothing
        } else if keysym == KEYSYM_ESCAPE {
            self.result = Some(DialogResult::Cancelled);
            proof {
                assert(self@ =~= key_step(old(self)@, keysym).0);
            }
            InputAction::Nothing
        } else if keysym == KEYSYM_BACKSPACE {
            let _ = self.secret.pop();
            proof {
                assert(self@ =~= key_step(old(self)@, keysym).0);
            }
            InputAction::Redraw
        } else if self.ctrl && (keysym == KEYSYM_V_LOWER || keysym == KEYSYM_V_UPPER) {
            let payload = self.clipboard.take();
            match payload {
                Some(mut p) => {
                    self.secret.append(&mut p);
                    proof {
                        assert(self@ =~= key_step(old(self)@, keysym).0);
                    }
                    InputAction::Redraw
                },
                None => {
                    if self.offer_pending {
                        self.offer_pending = false;
                        proof {
                            assert(self@ =~= key_step(old(self)@, keysym).0);
                        }
                        InputAction::BeginClipboardRead
                    } else {
                        proof {
                            assert(self@ =~= key_step(old(self)@, keysym).0);
                        }
                        InputAction::Nothing
                    }
                },
            }
        } else if self.ctrl && (keysym == KEYSYM_A_LOWER || keysym == KEYSYM_A_UPPER) {
            proof {
                assert(self@ =~= key_step(old(self)@, keysym).0);
            }
            InputAction::Nothing
        } else {
            match keysym_to_char(keysym) {
                Some(c) => {
                    if is_accepted_char(c) {
                        self.secret.push(c);
                        proof {
                            assert(self@ =~= key_step(old(self)@, keysym).0);
                        }
                        InputAction::Redraw
                    } else {
                        proof {
                            assert(self@ =~= key_step(old(self)@, keysym).0);
                        }
                        InputAction::Nothing
                    }
                },
                None => {
                    proof {
                        assert(self@ =~= key_step(old(self)@, keysym).0);
                    }
                    InputAction::Nothing
                },
            }
        }
    }

    /// Consumes a window-close request, exactly as [`close_step`] describes.
    pub fn handle_close(&mut self) -> (r: ())
        ensures
            final(self)@ == close_step(old(self)@),
    {
        if self.result.is_none() {
            self.result = Some(DialogResult::Cancelled);
        }
        proof {
            assert(self@ =~= close_step(old(self)@));
        }
    }
}

/// Folds a sequence of key-press events through the state machine.
pub open spec fn run_keys(s: InputStateView, keys: Seq<u32>) -> InputStateView
    decreases keys.len(),
{
    if keys.len() == 0 {
        s
    } else {
        run_keys(key_step(s, keys[0]).0, keys.drop_first())
    }
}

/// A keysym in the printable ASCII range, which the dialog appends verbatim.
pub open spec fn printable_key(k: u32) -> bool {
    0x20 <= k && k <= 0x7e
}

/// The characters a sequence of printable keysyms stands for.
pub open spec fn chars_of_keys(keys: Seq<u32>) -> Seq<char> {
    keys.map_values(|k: u32| (k as u8) as char)
}

/// Law: for every sequence of printable-character key events followed by
/// Enter, starting from any unfinalized state with Ctrl not held, the
/// finalized secret equals the secret so far extended by exactly those
/// characters, in order.
pub proof fn lemma_printable_keys_then_enter(s: InputStateView, keys: Seq<u32>)
    requires
        s.result is None,
        !s.ctrl,
        forall|i: int| 0 <= i < keys.len() ==> printable_key(#[trigger] keys[i]),
    ensures
        run_keys(s, keys.push(KEYSYM_RETURN)).result == Some(
            DialogResultView::Confirmed(s.secret + chars_of_keys(keys)),
        ),
    decreases keys.len(),
{
    if keys.len() == 0 {
        let evs = keys.push(KEYSYM_RETURN);
        assert(evs[0] == KEYSYM_RETURN);
        assert(evs.drop_first() =~= Seq::<u32>::empty());
        let s1 = key_step(s, KEYSYM_RETURN).0;
        assert(s1.result == Some(DialogResultView::Confirmed(s.secret)));
        assert(run_keys(s, evs) == run_keys(s1, evs.drop_first()));
        assert(run_keys(s1, Seq::<u32>::empty()) == s1);
        assert(s.secret + chars_of_keys(keys) =~= s.secret);
    } else {
        let k = keys[0];
        let c = (k as u8) as char;
        assert(spec_keysym_to_char(k) == Some(c));
        assert(accepts_char(c));
        let s1 = key_step(s, k).0;
        assert(s1.secret == s.secret.push(c));
        assert(s1.result is None && !s1.ctrl);
        let rest = keys.drop_first();
        lemma_printable_keys_then_enter(s1, rest);
        let evs = keys.push(KEYSYM_RETURN);
        assert(evs[0] == k);
        assert(evs.drop_first() =~= rest.push(KEYSYM_RETURN));
        assert(run_keys(s, evs) == run_keys(key_step(s, evs[0]).0, evs.drop_first()));
        assert(run_keys(s, evs) == run_keys(s1, rest.push(KEYSYM_RETURN)));
        assert(s1.secret + chars_of_keys(rest) =~= s.secret + chars_of_keys(keys));
    }
}

/// Law: Backspace on an empty secret is a no-op; on a non-empty secret it
/// removes exactly the last character and nothing else.
pub proof fn lemma_backspace(s: InputStateView)
    requires
        s.result is None,
    ensures
        s.secret.len() == 0 ==> key_step(s, KEYSYM_BACKSPACE).0 == s,
        s.secret.len() > 0 ==> key_step(s, KEYSYM_BACKSPACE).0 == (InputStateView {
            secret: s.secret.drop_last(),
            ..s
        }),
{
}

/// Law: Escape always finalizes as Cancelled, whatever input has been
/// accumulated, and the cancellation carries none of that input.
pub proof fn lemma_escape_cancels(s: InputStateView)
    requires
        s.result is None,
    ensures
        key_step(s, KEYSYM_ESCAPE).0.result == Some(DialogResultView::Cancelled),
{
}

/// Law: a window-close request always finalizes as Cancelled, whatever input
/// has been accumulated, and the cancellation carries none of that input.
pub proof fn lemma_close_cancels(s: InputStateView)
    requires
        s.result is None,
    ensures
        close_step(s).result == Some(DialogResultView::Cancelled),
{
}

/// Law: a finalized state is terminal. No later key event and no close
/// request changes the state in any way, so the first result written is the
/// one the session reports.
pub proof fn lemma_finalized_is_terminal(s: InputStateView, keysym: u32)
    requires
        s.result is Some,
    ensures
        key_step(s, keysym).0 == s,
        key_step(s, keysym).1 == InputAction::Nothing,
        close_step(s) == s,
{
}

/// Law: a paste with no prior clipboard payload and no pending offer leaves
/// the state unchanged; a paste with a ready payload appends it exactly once
/// and clears it, so that an immediate second paste appends nothing more.
pub proof fn lemma_paste_exactly_once(s: InputStateView, k: u32)
    requires
        s.result is None,
        s.ctrl,
        k == KEYSYM_V_LOWER || k == KEYSYM_V_UPPER,
    ensures
        s.clipboard is None && !s.offer_pending ==> key_step(s, k).0 == s,
        s.clipboard matches Some(p) ==> key_step(s, k).0 == (InputStateView {
            secret: s.secret + p,
            clipboard: None,
            ..s
        }),
        s.clipboard is Some && !s.offer_pending ==> key_step(key_step(s, k).0, k).0.secret
            == s.secret + s.clipboard.unwrap(),
{
}

/// Copies a character vector; used when finalization must keep the secret in
/// the state while handing a copy to the result.
fn clone_chars(v: &Vec<char>) -> (r: Vec<char>)
    ensures
        r@ == v@,
{
    let mut out: Vec<char> = Vec::new();
    let mut i: usize = 0;
    while i < v.len()
        invariant
            i <= v@.len(),
            out@ == v@.subrange(0, i as int),
        decreases v@.len() - i,
    {
        out.push(v[i]);
        proof {
            assert(out@ =~= v@.subrange(0, i + 1));
        }
        i += 1;
    }
    proof {
        assert(out@ =~= v@);
    }
    out
}

} // verus!
