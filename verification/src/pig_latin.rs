//! A pig-latin converter for sentences of whitespace-free words.
//!
//! A word beginning with a lowercase vowel gets `yay` appended.  Any other
//! ASCII word is rebuilt in one pass: punctuation is plucked out, the
//! consonants before the first vowel are moved behind the remaining
//! characters, `ay` follows them, and the plucked punctuation closes the
//! word.  A word with characters beyond ASCII is left unchanged.

use crate::text::push_char;
use vstd::prelude::*;
use vstd::utf8::is_ascii_chars;

verus! {

/// Whether `c` is one of the five lowercase vowels.
pub open spec fn is_vowel(c: char) -> bool {
    c == 'a' || c == 'e' || c == 'i' || c == 'o' || c == 'u'
}

/// Whether `c` is ASCII punctuation.
pub open spec fn is_punct(c: char) -> bool {
    ||| 33 <= c as int <= 47
    ||| 58 <= c as int <= 64
    ||| 91 <= c as int <= 96
    ||| 123 <= c as int <= 126
}

/// Decides [`is_vowel`].
fn is_vowel_char(c: char) -> (r: bool)
    ensures
        r == is_vowel(c),
{
    c == 'a' || c == 'e' || c == 'i' || c == 'o' || c == 'u'
}

/// Decides [`is_punct`].
fn is_punct_char(c: char) -> (r: bool)
    ensures
        r == is_punct(c),
{
    let n = c as u32;
    (33 <= n && n <= 47) || (58 <= n && n <= 64) || (91 <= n && n <= 96) || (123 <= n && n <= 126)
}

/// The characters of `w` that stay in place: vowels always, and anything
/// that is neither punctuation nor ahead of the first vowel.  `seen` tells
/// whether a vowel came before `w`.
pub open spec fn kept_chars(w: Seq<char>, seen: bool) -> Seq<char>
    decreases w.len(),
{
    if w.len() == 0 {
        Seq::empty()
    } else {
        let c = w[0];
        let rest = w.drop_first();
        if is_vowel(c) {
            seq![c] + kept_chars(rest, true)
        } else if is_punct(c) {
            kept_chars(rest, seen)
        } else if !seen {
            kept_chars(rest, seen)
        } else {
            seq![c] + kept_chars(rest, seen)
        }
    }
}

/// The consonants of `w` ahead of the first vowel, which move to the back.
pub open spec fn moved_consonants(w: Seq<char>, seen: bool) -> Seq<char>
    decreases w.len(),
{
    if w.len() == 0 {
        Seq::empty()
    } else {
        let c = w[0];
        let rest = w.drop_first();
        if is_vowel(c) {
            moved_consonants(rest, true)
        } else if is_punct(c) {
            moved_consonants(rest, seen)
        } else if !seen {
            seq![c] + moved_consonants(rest, seen)
        } else {
            moved_consonants(rest, seen)
        }
    }
}

/// The punctuation of `w`, plucked out in order.
pub open spec fn plucked_punct(w: Seq<char>) -> Seq<char>
    decreases w.len(),
{
    if w.len() == 0 {
        Seq::empty()
    } else {
        let c = w[0];
        let rest = w.drop_first();
        if is_vowel(c) {
            plucked_punct(rest)
        } else if is_punct(c) {
            seq![c] + plucked_punct(rest)
        } else {
            plucked_punct(rest)
        }
    }
}

/// The pig-latin form of one word.
pub open spec fn pig_word(w: Seq<char>) -> Seq<char> {
    if w.len() > 0 && is_vowel(w[0]) {
        w + "yay"@
    } else if is_ascii_chars(w) {
        kept_chars(w, false) + moved_consonants(w, false) + "ay"@ + plucked_punct(w)
    } else {
        w
    }
}

/// Converts one word to pig latin.
pub fn pig_latin_word(word: &str) -> (r: String)
    ensures
        r@ == pig_word(word@),
{
    let n = word.unicode_len();
    if n > 0 && is_vowel_char(word.get_char(0)) {
        let mut s = String::from_str(word);
        s.append("yay");
        return s;
    }
    if !word.is_ascii() {
        proof {
            assert(!is_ascii_chars(word@));
        }
        return String::from_str(word);
    }
    let mut kept = String::new();
    let mut cons = String::new();
    let mut punct = String::new();
    let mut seen = false;
    let mut i: usize = 0;
    proof {
        assert(word@.skip(0) =~= word@);
        assert(kept@ + kept_chars(word@, false) =~= kept_chars(word@, false));
        assert(cons@ + moved_consonants(word@, false) =~= moved_consonants(word@, false));
        assert(punct@ + plucked_punct(word@) =~= plucked_punct(word@));
    }
    while i < n
        invariant
            i <= n,
            n == word@.len(),
            kept@ + kept_chars(word@.skip(i as int), seen) == kept_chars(word@, false),
            cons@ + moved_consonants(word@.skip(i as int), seen) == moved_consonants(
                word@,
                false,
            ),
            punct@ + plucked_punct(word@.skip(i as int)) == plucked_punct(word@),
        decreases n - i,
    {
        let c = word.get_char(i);
        let ghost rest = word@.skip(i as int);
        proof {
            assert(rest[0] == c);
            assert(rest.drop_first() =~= word@.skip(i + 1 as int));
        }
        if is_vowel_char(c) {
            proof {
                assert(kept_chars(rest, seen) == seq![c] + kept_chars(rest.drop_first(), true));
                assert(kept@ + (seq![c] + kept_chars(rest.drop_first(), true)) =~= kept@.push(c)
                    + kept_chars(rest.drop_first(), true));
            }
            push_char(&mut kept, c);
            seen = true;
        } else if is_punct_char(c) {
            proof {
                assert(plucked_punct(rest) == seq![c] + plucked_punct(rest.drop_first()));
                assert(punct@ + (seq![c] + plucked_punct(rest.drop_first())) =~= punct@.push(c)
                    + plucked_punct(rest.drop_first()));
            }
            push_char(&mut punct, c);
        } else if !seen {
            proof {
                assert(moved_consonants(rest, seen) == seq![c] + moved_consonants(
                    rest.drop_first(),
                    seen,
                ));
                assert(cons@ + (seq![c] + moved_consonants(rest.drop_first(), seen)) =~= cons@.push(
                    c,
                ) + moved_consonants(rest.drop_first(), seen));
            }
            push_char(&mut cons, c);
        } else {
            proof {
                assert(kept_chars(rest, seen) == seq![c] + kept_chars(rest.drop_first(), seen));
                assert(kept@ + (seq![c] + kept_chars(rest.drop_first(), seen)) =~= kept@.push(c)
                    + kept_chars(rest.drop_first(), seen));
            }
            push_char(&mut kept, c);
        }
        i += 1;
    }
    proof {
        assert(word@.skip(n as int) =~= Seq::<char>::empty());
        assert(kept@ + Seq::<char>::empty() =~= kept@);
        assert(cons@ + Seq::<char>::empty() =~= cons@);
        assert(punct@ + Seq::<char>::empty() =~= punct@);
    }
    let mut out = kept;
    out.append(cons.as_str());
    out.append("ay");
    out.append(punct.as_str());
    proof {
        assert(out@ =~= pig_word(word@));
    }
    out
}

/// Rewrites every word of the sentence into pig latin, in place.
pub fn pig_latin_conversion(strings: &mut Vec<String>)
    ensures
        final(strings).deep_view() == old(strings).deep_view().map_values(
            |w: Seq<char>| pig_word(w),
        ),
{
    let ghost orig = old(strings).deep_view();
    let mut i: usize = 0;
    while i < strings.len()
        invariant
            i <= strings@.len(),
            strings@.len() == orig.len(),
            forall|k: int| i <= k < orig.len() ==> strings.deep_view()[k] == orig[k],
            forall|k: int| 0 <= k < i ==> strings.deep_view()[k] == pig_word(orig[k]),
        decreases strings@.len() - i,
    {
        let ghost predv = strings.deep_view();
        let w = pig_latin_word(strings[i].as_str());
        strings[i] = w;
        proof {
            assert(strings.deep_view() =~= predv.update(i as int, pig_word(orig[i as int])));
        }
        i += 1;
    }
    proof {
        assert(strings.deep_view() =~= orig.map_values(|w: Seq<char>| pig_word(w)));
    }
}

} // verus!
