//! The computing side of the package-management extension: pure text, with
//! the plugin plumbing left to the program around the library.

use vstd::prelude::*;

verus! {

/// The greeting the extension answers with.
pub fn greet(name: &str) -> (r: String)
    ensures
        r@ == "Hello, "@ + name@ + "!"@,
{
    let mut s = String::from_str("Hello, ");
    s.append(name);
    s.append("!");
    s
}

} // verus!
