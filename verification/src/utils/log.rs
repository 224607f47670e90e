//! The lines that the program prints to report progress and failure.
use vstd::prelude::*;
use crate::text::{extend_chars, to_chars, to_string};

verus! {

/// The red cross that opens a fatal message.
pub const ERROR: &'static str = "\x1b[1;31m✕\x1b[m";

/// Joins three texts.
fn concat3(a: &str, b: &str, c: &str) -> (s: String)
    ensures
        s@ == a@ + b@ + c@,
{
    let mut v = to_chars(a);
    extend_chars(&mut v, to_chars(b).as_slice());
    extend_chars(&mut v, to_chars(c).as_slice());
    to_string(v.as_slice())
}

/// The line of an error that ends the program: a red `✘`, then the message.
pub fn error_line(message: &str) -> (line: String)
    ensures
        line@ == "\x1b[1;31m✘\x1b[m "@ + message@,
{
    let s = concat3("\x1b[1;31m✘\x1b[m ", message, "");
    proof {
        reveal_strlit("");
    }
    assert(s@ =~= "\x1b[1;31m✘\x1b[m "@ + message@);
    s
}

/// The line announcing work in progress, in blue after a `⟳`, then an empty line.
pub fn wait_line(message: &str) -> (line: String)
    ensures
        line@ == "\x1b[1;34m⟳ "@ + message@ + "\x1b[m\n"@,
{
    concat3("\x1b[1;34m⟳ ", message, "\x1b[m\n")
}

/// The line announcing a success, in blue after a `›`, then an empty line.
pub fn success_line(message: &str) -> (line: String)
    ensures
        line@ == "\x1b[1;34m› "@ + message@ + "\x1b[m\n"@,
{
    concat3("\x1b[1;34m› ", message, "\x1b[m\n")
}

/// The line of a warning, in yellow after a `⚠`, then an empty line.
pub fn warning_line(message: &str) -> (line: String)
    ensures
        line@ == "\x1b[1;33m⚠ "@ + message@ + "\x1b[m\n"@,
{
    concat3("\x1b[1;33m⚠ ", message, "\x1b[m\n")
}

} // verus!
