//! Finding the first word of a string, and small slicing exercises.

use vstd::prelude::*;

verus! {

/// The length of the first word: the index of the first space, or the whole
/// length when there is none.
pub open spec fn first_word_end(s: Seq<char>) -> int
    decreases s.len(),
{
    if s.len() == 0 {
        0
    } else if s[0] == ' ' {
        0
    } else {
        1 + first_word_end(s.drop_first())
    }
}

/// `first_word_end` points at the first space, or past the end.
proof fn lemma_first_word_end(s: Seq<char>, i: int)
    requires
        0 <= i <= s.len(),
        forall|k: int| 0 <= k < i ==> s[k] != ' ',
        i < s.len() ==> s[i] == ' ',
    ensures
        first_word_end(s) == i,
    decreases i,
{
    if i == 0 {
    } else {
        assert forall|k: int| 0 <= k < i - 1 implies s.drop_first()[k] != ' ' by {
            assert(s.drop_first()[k] == s[k + 1]);
        }
        if i < s.len() {
            assert(s.drop_first()[i - 1] == s[i]);
        }
        lemma_first_word_end(s.drop_first(), i - 1);
    }
}

/// The index one past the first word of `s`: the position of the first
/// space character, or the length of `s` when it has no space.
pub fn find_first_word(s: &String) -> (r: usize)
    ensures
        r == first_word_end(s@),
        r <= s@.len(),
{
    let text = s.as_str();
    let n = text.unicode_len();
    let mut i: usize = 0;
    while i < n
        invariant
            i <= n,
            n == s@.len(),
            text@ == s@,
            forall|k: int| 0 <= k < i ==> s@[k] != ' ',
        decreases n - i,
    {
        if text.get_char(i) == ' ' {
            proof {
                lemma_first_word_end(s@, i as int);
            }
            return i;
        }
        i += 1;
    }
    proof {
        lemma_first_word_end(s@, n as int);
    }
    n
}

/// The first word of `s` as a slice: everything before the first space, or
/// all of `s` when it has no space.
pub fn find_first_word_2<'a>(s: &'a str) -> (r: &'a str)
    ensures
        r@ == s@.take(first_word_end(s@)),
{
    let n = s.unicode_len();
    let mut i: usize = 0;
    while i < n
        invariant
            i <= n,
            n == s@.len(),
            forall|k: int| 0 <= k < i ==> s@[k] != ' ',
        decreases n - i,
    {
        if s.get_char(i) == ' ' {
            proof {
                lemma_first_word_end(s@, i as int);
            }
            return s.substring_char(0, i);
        }
        i += 1;
    }
    proof {
        lemma_first_word_end(s@, n as int);
        assert(s@.take(n as int) =~= s@);
    }
    s.substring_char(0, n)
}

/// Two slices of one greeting refer back to its characters.
pub fn string_splices() {
    let string1: &str = "hola amigo";
    proof {
        reveal_strlit("hola amigo");
        reveal_strlit("hola");
        reveal_strlit("amigo");
    }
    let hola: &str = string1.substring_char(0, 4);
    let amigo: &str = string1.substring_char(5, 10);
    proof {
        assert(hola@ =~= "hola"@);
        assert(amigo@ =~= "amigo"@);
    }
}

/// Slicing an array borrows a part of it.
pub fn test_array_slicing() {
    let array: [i32; 5] = [1, 2, 3, 4, 5];
    let slice: &[i32] = array.as_slice();
    assert(slice@[1] == 2);
    assert(slice@[2] == 3);
}

} // verus!
