//! Text of the interactive shell.

use vstd::prelude::*;

verus! {

/// The greeting for `who`: `Hello, ` followed by the name.
pub fn hello_message(who: &str) -> (r: String)
    ensures
        r@ == "Hello, "@ + who@,
{
    let mut r = String::from_str("Hello, ");
    r.append(who);
    r
}

} // verus!
