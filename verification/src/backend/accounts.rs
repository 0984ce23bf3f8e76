//! Account operations, which lean on the sibling payments module.

use vstd::prelude::*;

verus! {

/// Reports an account being opened.
pub fn open() -> (r: String)
    ensures
        r@ == "Opening account!"@,
{
    String::from_str("Opening account!")
}

/// Deposits through the payments module, once by the absolute path and once
/// by the relative one, and reports both.
pub fn deposit_via_payments() -> (r: Vec<String>)
    ensures
        r.deep_view() == seq!["Depositing!"@, "Depositing!"@],
{
    let mut out: Vec<String> = Vec::new();
    out.push(crate::backend::payments::deposit());
    out.push(super::payments::deposit());
    proof {
        assert(out.deep_view() =~= seq!["Depositing!"@, "Depositing!"@]);
    }
    out
}

} // verus!
