//! A parent module whose greeting a child module reaches with `super`.

use vstd::prelude::*;

pub mod inner;

verus! {

/// The parent's greeting.
pub fn hello() -> (r: String)
    ensures
        r@ == "hola outer"@,
{
    String::from_str("hola outer")
}

} // verus!
