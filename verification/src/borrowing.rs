//! Ownership and borrowing exercises with verified effects.

use vstd::prelude::*;
use vstd::utf8::encode_utf8;

verus! {

/// Hands a fresh greeting to the caller.
pub fn dummy_return_function() -> (r: String)
    ensures
        r@ == "hola"@,
{
    String::from_str("hola")
}

/// Reads the byte length of a borrowed string.
pub fn test_references(string: &String) -> (r: usize)
    ensures
        r == encode_utf8(string@).len() as usize,
{
    string.as_str().len()
}

/// Appends through a mutable borrow.
pub fn test_mutable_reference(string: &mut String)
    ensures
        final(string)@ == old(string)@ + "nah im good."@,
{
    string.append("nah im good.");
}

/// Mutable borrows work one at a time; shared borrows may overlap each
/// other once no mutable borrow is live.
pub fn test_multiple_mutable_references() {
    let mut string1 = dummy_return_function();
    {
        let f4 = &mut string1;
        f4.append(" amigo");
    }
    let f5 = &string1;
    let f6 = &string1;
    proof {
        reveal_strlit("hola");
        reveal_strlit(" amigo");
        reveal_strlit("hola amigo");
    }
    assert(f5@ =~= "hola amigo"@);
    assert(f6@ =~= "hola amigo"@);
}

} // verus!
