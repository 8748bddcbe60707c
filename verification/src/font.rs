//! Font selection over the bytes read from the candidate font paths: the
//! first readable font wins, and a dialog cannot start without one.

use vstd::prelude::*;

verus! {

/// Why a dialog could not start.
#[derive(Debug, Clone, Copy, PartialEq, Eq, Structural)]
pub enum StartupError {
    /// No candidate font path yielded usable font data.
    FontUnavailable,
}

impl StartupError {
    /// A diagnostic line for the fatal startup report.
    pub fn message(&self) -> (r: String)
        ensures
            r@ == "no system font found among the candidate paths"@,
    {
        String::from_str("no system font found among the candidate paths")
    }
}

/// Picks the font to use from the read attempts on the candidate paths, in
/// order: the first path whose bytes could be read wins. When every attempt
/// failed there is no font to show a dialog with, and startup must abort
/// with [`StartupError::FontUnavailable`].
pub fn choose_font(candidates: Vec<Option<Vec<u8>>>) -> (r: Result<Vec<u8>, StartupError>)
    ensures
        (exists|i: int| 0 <= i < candidates@.len() && candidates@[i] is Some) <==> r is Ok,
        r matches Ok(bytes) ==> exists|i: int|
            0 <= i < candidates@.len() && candidates@[i] == Some(bytes) && (forall|j: int|
                0 <= j < i ==> (#[trigger] candidates@[j]) is None),
{
    let total = candidates.len();
    let mut rest = candidates;
    let mut taken: usize = 0;
    while rest.len() > 0
        invariant
            total == candidates@.len(),
            rest@ == candidates@.subrange(taken as int, candidates@.len() as int),
            taken <= total,
            forall|j: int| 0 <= j < taken ==> (#[trigger] candidates@[j]) is None,
        decreases rest@.len(),
    {
        let head = rest.remove(0);
        match head {
            Some(bytes) => {
                proof {
                    assert(candidates@[taken as int] == Some(bytes));
                }
                return Ok(bytes);
            },
            None => {
                proof {
                    assert(candidates@[taken as int] is None);
                    assert(rest@ =~= candidates@.subrange(
                        taken + 1 as int,
                        candidates@.len() as int,
                    ));
                }
                taken += 1;
            },
        }
    }
    proof {
        assert forall|i: int| 0 <= i < candidates@.len() implies candidates@[i] is None by {}
    }
    Err(StartupError::FontUnavailable)
}

} // verus!
