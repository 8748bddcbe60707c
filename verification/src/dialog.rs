//! The protocol-facing front of the dialog: the pinentry command handler
//! state, the composition of the description label out of an error text and
//! a caller-supplied description, and the interpretation of what the GUI
//! side left in the result slot.

use vstd::prelude::*;
use crate::input::{DialogResult, DialogResultView};

verus! {

/// The pinentry command handler: holds the terminal path the protocol
/// client assigned, which this dialog style has no use for but accepts.
pub struct WaylandPinentry {
    tty: Option<String>,
}

/// An error surfaced to the protocol client.
#[derive(Debug, Clone, Copy, PartialEq, Eq, Structural)]
pub enum PinentryError {
    /// The GUI thread panicked; reported as an internal error, never as a
    /// secret.
    ThreadPanic,
}

impl PinentryError {
    /// The diagnostic line the protocol client sees.
    pub fn message(&self) -> (r: String)
        ensures
            r@ == "Wayland thread panicked"@,
    {
        String::from_str("Wayland thread panicked")
    }
}

/// What a confirmation request resolves to.
#[derive(Debug, Clone, Copy, PartialEq, Eq, Structural)]
pub enum ConfirmDecision {
    Affirmed,
    Canceled,
}

impl WaylandPinentry {
    /// A fresh handler with no terminal path assigned.
    pub fn new() -> (s: Self)
        ensures
            s.spec_tty() is None,
    {
        WaylandPinentry { tty: None }
    }

    /// The terminal path the client assigned, if any.
    pub closed spec fn spec_tty(&self) -> Option<Seq<char>> {
        match self.tty {
            Some(ref p) => Some(p@),
            None => None,
        }
    }

    /// Stores the terminal path the protocol client assigned; always
    /// succeeds, since this dialog style never opens a terminal.
    pub fn set_tty(&mut self, path: String) -> (r: Result<(), PinentryError>)
        ensures
            r is Ok,
            final(self).spec_tty() == Some(path@),
    {
        self.tty = Some(path);
        Ok(())
    }
}

/// The description label shown in the dialog: a prior protocol error is put
/// above the caller's description, separated by a blank line; without one
/// the description stands alone, or a fixed invitation when the caller gave
/// none.
pub fn compose_description(error: Option<&str>, desc: Option<&str>) -> (r: String)
    ensures
        match error {
            Some(e) => r@ == e@ + "\n\n"@ + (match desc {
                Some(d) => d@,
                None => Seq::<char>::empty(),
            }),
            None => r@ == (match desc {
                Some(d) => d@,
                None => "Please enter your PIN"@,
            }),
        },
{
    match error {
        Some(e) => {
            let mut s = String::from_str(e);
            s.append("\n\n");
            match desc {
                Some(d) => {
                    s.append(d);
                },
                None => {
                    proof {
                        assert(s@ =~= e@ + "\n\n"@ + Seq::<char>::empty());
                    }
                },
            }
            s
        },
        None => match desc {
            Some(d) => String::from_str(d),
            None => String::from_str("Please enter your PIN"),
        },
    }
}

/// What a finished dialog hands back to the protocol layer: the secret when
/// the user confirmed, nothing on a cancellation — and, defensively, nothing
/// when the GUI side left the slot empty.
pub fn dialog_outcome(slot: Option<DialogResult>) -> (r: Option<Vec<char>>)
    ensures
        match slot {
            Some(DialogResult::Confirmed(_)) => r is Some,
            Some(DialogResult::Cancelled) => r is None,
            None => r is None,
        },
        r matches Some(secret) ==> slot matches Some(res) && res@ == DialogResultView::Confirmed(
            secret@,
        ),
{
    match slot {
        Some(DialogResult::Confirmed(secret)) => Some(secret),
        Some(DialogResult::Cancelled) => None,
        None => None,
    }
}

/// Resolves a confirmation request: a dialog that produced a secret (the
/// user pressed Enter) counts as an affirmation, anything else as a
/// cancellation.
pub fn decide_confirm(outcome: &Option<Vec<char>>) -> (c: ConfirmDecision)
    ensures
        (c == ConfirmDecision::Affirmed) == (outcome is Some),
{
    match outcome {
        Some(_) => ConfirmDecision::Affirmed,
        None => ConfirmDecision::Canceled,
    }
}

} // verus!
