//! Choice of the clipboard text format: among the formats a selection offer
//! advertises, the dialog reads the first supported one, in a fixed order of
//! preference.

use vstd::prelude::*;

verus! {

/// Whether some advertised format equals `needle`.
pub open spec fn spec_offers(types: Seq<String>, needle: Seq<char>) -> bool {
    exists|i: int| 0 <= i < types.len() && (#[trigger] types[i])@ == needle
}

/// The text format the dialog reads from an offer advertising `types`:
/// the first supported one in order of preference, or none.
pub open spec fn spec_pick_mime(types: Seq<String>) -> Option<Seq<char>> {
    if spec_offers(types, "text/plain"@) {
        Some("text/plain"@)
    } else if spec_offers(types, "text/plain;charset=utf-8"@) {
        Some("text/plain;charset=utf-8"@)
    } else if spec_offers(types, "UTF8_STRING"@) {
        Some("UTF8_STRING"@)
    } else if spec_offers(types, "STRING"@) {
        Some("STRING"@)
    } else {
        None
    }
}

/// Whether `types` contains a string equal to `needle`.
fn contains_string(types: &Vec<String>, needle: &String) -> (r: bool)
    ensures
        r == spec_offers(types@, needle@),
{
    let mut i: usize = 0;
    while i < types.len()
        invariant
            i <= types@.len(),
            forall|j: int| 0 <= j < i ==> (#[trigger] types@[j])@ != needle@,
        decreases types@.len() - i,
    {
        if types[i].eq(needle) {
            return true;
        }
        i += 1;
    }
    false
}

/// Picks which advertised text format to read the clipboard in, trying
/// plain text first and the X11 string formats last; `None` when the offer
/// advertises no supported text format, in which case the paste is skipped.
pub fn pick_mime(types: &Vec<String>) -> (r: Option<String>)
    ensures
        match r {
            Some(m) => spec_pick_mime(types@) == Some(m@),
            None => spec_pick_mime(types@) is None,
        },
{
    let plain = String::from_str("text/plain");
    if contains_string(types, &plain) {
        return Some(plain);
    }
    let plain_utf8 = String::from_str("text/plain;charset=utf-8");
    if contains_string(types, &plain_utf8) {
        return Some(plain_utf8);
    }
    let utf8_string = String::from_str("UTF8_STRING");
    if contains_string(types, &utf8_string) {
        return Some(utf8_string);
    }
    let string_fmt = String::from_str("STRING");
    if contains_string(types, &string_fmt) {
        return Some(string_fmt);
    }
    None
}

} // verus!
