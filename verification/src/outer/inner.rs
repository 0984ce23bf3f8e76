//! A child module calling up into its parent.

use vstd::prelude::*;

verus! {

/// Fetches the parent module's greeting through `super`.
pub fn call_outer() -> (r: String)
    ensures
        r@ == "hola outer"@,
{
    super::hello()
}

} // verus!
