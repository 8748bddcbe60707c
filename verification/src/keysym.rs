//! Translation of raw X11 keysym codes into the printable characters the
//! dialog accepts, together with the named keysyms the input state machine
//! reacts to.

use vstd::prelude::*;

verus! {

/// Keysym code for the main Enter key.
pub const KEYSYM_RETURN: u32 = 0xff0d;
/// Keysym code for the numeric-pad Enter key.
pub const KEYSYM_KP_ENTER: u32 = 0xff8d;
/// Keysym code for Escape.
pub const KEYSYM_ESCAPE: u32 = 0xff1b;
/// Keysym code for Backspace.
pub const KEYSYM_BACKSPACE: u32 = 0xff08;
/// Keysym code for lower-case `v`.
pub const KEYSYM_V_LOWER: u32 = 0x76;
/// Keysym code for upper-case `V`.
pub const KEYSYM_V_UPPER: u32 = 0x56;
/// Keysym code for lower-case `a`.
pub const KEYSYM_A_LOWER: u32 = 0x61;
/// Keysym code for upper-case `A`.
pub const KEYSYM_A_UPPER: u32 = 0x41;

/// The character a raw keysym stands for, if any: keysyms in the printable
/// ASCII range map directly to their character, all others to nothing.
pub open spec fn spec_keysym_to_char(keysym: u32) -> Option<char> {
    if 0x20 <= keysym && keysym <= 0x7e {
        Some((keysym as u8) as char)
    } else {
        None
    }
}

/// Maps a raw keysym code to the printable ASCII character it denotes,
/// or `None` for every keysym outside the printable range.
pub fn keysym_to_char(keysym: u32) -> (r: Option<char>)
    ensures
        r == spec_keysym_to_char(keysym),
{
    if 0x20 <= keysym && keysym <= 0x7e {
        Some(keysym as u8 as char)
    } else {
        None
    }
}

} // verus!
