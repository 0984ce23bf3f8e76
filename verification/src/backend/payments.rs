//! Payment operations.

use vstd::prelude::*;

verus! {

/// Reports a deposit being made.
pub fn deposit() -> (r: String)
    ensures
        r@ == "Depositing!"@,
{
    String::from_str("Depositing!")
}

} // verus!
