//! Reporting whether the package sites answer.
use vstd::prelude::*;
use crate::text::{to_chars, to_string};

verus! {

/// The mark printed after a site: a blue `✔` where it answered with success,
/// else a red `✕` (also where it could not be reached).
pub fn status_mark(success: bool) -> (mark: String)
    ensures
        mark@ == (if success {
            "\x1b[1;34m✔\x1b[m"@
        } else {
            "\x1b[1;31m✕\x1b[m"@
        }),
{
    if success {
        to_string(to_chars("\x1b[1;34m✔\x1b[m").as_slice())
    } else {
        to_string(to_chars("\x1b[1;31m✕\x1b[m").as_slice())
    }
}

} // verus!
