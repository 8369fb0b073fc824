pub mod ast;
pub mod bash;
pub mod grammar;
pub mod target;
pub mod text;
pub mod unescape;

use vstd::prelude::*;

verus! {

/// The version of this library.
pub fn version() -> (r: &'static str)
    ensures
        r@ == "0.1.0"@,
{
    "0.1.0"
}

} // verus!
