//! The one-shot result slot: the single rendezvous point through which the
//! GUI side hands the finalized outcome back to the protocol side. It is
//! written at most once — the first writer wins — and read out once.

use vstd::prelude::*;
use crate::input::DialogResult;

verus! {

/// A single-slot, write-once container for the dialog outcome.
pub struct ResultSlot {
    value: Option<DialogResult>,
}

impl ResultSlot {
    /// What the slot currently holds.
    pub closed spec fn spec_value(&self) -> Option<DialogResult> {
        self.value
    }

    /// An empty slot.
    pub fn new() -> (s: Self)
        ensures
            s.spec_value() is None,
    {
        ResultSlot { value: None }
    }

    /// Whether an outcome has been recorded.
    pub fn is_set(&self) -> (b: bool)
        ensures
            b == (self.spec_value() is Some),
    {
        self.value.is_some()
    }

    /// Records the outcome, but only into an empty slot: the first writer
    /// wins, a second write changes nothing and reports failure.
    pub fn set(&mut self, outcome: DialogResult) -> (won: bool)
        ensures
            old(self).spec_value() is None ==> final(self).spec_value() == Some(outcome) && won,
            old(self).spec_value() is Some ==> final(self).spec_value() == old(self).spec_value()
                && !won,
    {
        if self.value.is_none() {
            self.value = Some(outcome);
            true
        } else {
            false
        }
    }

    /// Takes the outcome out, leaving the slot empty.
    pub fn take(&mut self) -> (r: Option<DialogResult>)
        ensures
            r == old(self).spec_value(),
            final(self).spec_value() is None,
    {
        self.value.take()
    }
}

} // verus!
