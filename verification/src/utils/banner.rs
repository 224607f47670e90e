//! The program's banner.
use vstd::prelude::*;
use crate::text::{extend_chars, to_chars, to_string};

verus! {

/// The banner: the program's name drawn in blue, then its purpose in red.
pub open spec fn about_text() -> Seq<char> {
    "\x1b[1;34m
                      _____       
        _________________(_)_____ 
        _  __ \\__  __ \\_  /_  __ \\
        / /_/ /_  /_/ /  / / /_/ /
        \\____/_  .___//_/  \\____/ 
              /_/

     \x1b[1;31mAUR helper & package downgrader\x1b[m"@
}

/// The banner, as it is shown in the help text.
pub fn about() -> (text: String)
    ensures
        text@ == about_text(),
{
    to_string(to_chars("\x1b[1;34m
                      _____       
        _________________(_)_____ 
        _  __ \\__  __ \\_  /_  __ \\
        / /_/ /_  /_/ /  / / /_/ /
        \\____/_  .___//_/  \\____/ 
              /_/

     \x1b[1;31mAUR helper & package downgrader\x1b[m").as_slice())
}

/// The banner as it is printed at start: followed by an empty line.
pub fn banner_text() -> (text: String)
    ensures
        text@ == about_text() + "\n"@,
{
    let mut v = to_chars("\x1b[1;34m
                      _____       
        _________________(_)_____ 
        _  __ \\__  __ \\_  /_  __ \\
        / /_/ /_  /_/ /  / / /_/ /
        \\____/_  .___//_/  \\____/ 
              /_/

     \x1b[1;31mAUR helper & package downgrader\x1b[m");
    extend_chars(&mut v, to_chars("\n").as_slice());
    to_string(v.as_slice())
}

} // verus!
