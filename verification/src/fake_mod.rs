//! A module that reaches the payments module by its full path.

use vstd::prelude::*;

verus! {

/// Deposits through the payments module.
pub fn fake_main() -> (r: String)
    ensures
        r@ == "Depositing!"@,
{
    crate::backend::payments::deposit()
}

} // verus!
