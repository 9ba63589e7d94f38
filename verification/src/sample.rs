//! The greeting of the sample program.
//!
//! The sample program that this library's examples scan defines one
//! function, `greet`. It stands here as well, so that what the sample
//! computes is stated and proved like the rest.

use vstd::prelude::*;
use vstd::string::StringExecFns;

verus! {

/// The greeting for `name`: `Hello, `, the name, and an exclamation mark.
pub open spec fn greeting(name: Seq<char>) -> Seq<char> {
    "Hello, "@ + name + "!"@
}

/// Returns the greeting for `name`.
pub fn greet(name: &str) -> (s: String)
    ensures
        s@ == greeting(name@),
{
    String::from_str("Hello, ").concat(name).concat("!")
}

} // verus!
