//! A verified lexicographic sort for vectors of strings.

use crate::text::{lex_leq, str_leq, str_views};
use vstd::prelude::*;
use vstd::relations::{sorted_by, total_ordering};
use vstd::multiset::group_multiset_axioms;
use vstd::seq_lib::{group_to_multiset_ensures, lemma_sorted_unique};

verus! {

/// [`lex_leq`] as a relation value, for use with the ordering predicates of
/// `vstd::relations`.
pub open spec fn lex_leq_fn() -> spec_fn(Seq<char>, Seq<char>) -> bool {
    |a: Seq<char>, b: Seq<char>| lex_leq(a, b)
}

/// Lexicographic order is reflexive.
proof fn lemma_lex_refl(a: Seq<char>)
    ensures
        lex_leq(a, a),
    decreases a.len(),
{
    if a.len() > 0 {
        lemma_lex_refl(a.drop_first());
    }
}

/// Lexicographic order is antisymmetric.
proof fn lemma_lex_antisym(a: Seq<char>, b: Seq<char>)
    requires
        lex_leq(a, b),
        lex_leq(b, a),
    ensures
        a == b,
    decreases a.len(),
{
    if a.len() == 0 {
        assert(b.len() == 0);
        assert(a =~= b);
    } else {
        lemma_lex_antisym(a.drop_first(), b.drop_first());
        assert(a =~= seq![a[0]] + a.drop_first());
        assert(b =~= seq![b[0]] + b.drop_first());
    }
}

/// Lexicographic order is transitive.
proof fn lemma_lex_trans(a: Seq<char>, b: Seq<char>, c: Seq<char>)
    requires
        lex_leq(a, b),
        lex_leq(b, c),
    ensures
        lex_leq(a, c),
    decreases a.len(),
{
    if a.len() > 0 && b.len() > 0 && c.len() > 0 && a[0] == b[0] && b[0] == c[0] {
        lemma_lex_trans(a.drop_first(), b.drop_first(), c.drop_first());
    }
}

/// Any two character sequences are comparable.
proof fn lemma_lex_connected(a: Seq<char>, b: Seq<char>)
    ensures
        lex_leq(a, b) || lex_leq(b, a),
    decreases a.len(),
{
    if a.len() > 0 && b.len() > 0 && a[0] == b[0] {
        lemma_lex_connected(a.drop_first(), b.drop_first());
    }
}

/// Lexicographic order is a total order.
pub proof fn lemma_lex_total_ordering()
    ensures
        total_ordering(lex_leq_fn()),
{
    let leq = lex_leq_fn();
    assert forall|a: Seq<char>| #[trigger] leq(a, a) by {
        lemma_lex_refl(a);
    }
    assert forall|a: Seq<char>, b: Seq<char>| #[trigger] leq(a, b) && #[trigger] leq(b, a)
        implies a == b by {
        lemma_lex_antisym(a, b);
    }
    assert forall|a: Seq<char>, b: Seq<char>, c: Seq<char>|
        #[trigger] leq(a, b) && #[trigger] leq(b, c) implies leq(a, c) by {
        lemma_lex_trans(a, b, c);
    }
    assert forall|a: Seq<char>, b: Seq<char>| #[trigger] leq(a, b) || #[trigger] leq(b, a) by {
        lemma_lex_connected(a, b);
    }
}

/// A sequence already sorted lexicographically is its own sorted form.
pub proof fn lemma_sort_of_sorted(s: Seq<Seq<char>>)
    requires
        sorted_by(s, lex_leq_fn()),
    ensures
        s.sort_by(lex_leq_fn()) == s,
{
    lemma_lex_total_ordering();
    s.lemma_sort_by_ensures(lex_leq_fn());
    lemma_sorted_unique(s.sort_by(lex_leq_fn()), s, lex_leq_fn());
}

/// Sorting a second time changes nothing.
pub proof fn lemma_sort_idempotent(s: Seq<Seq<char>>)
    ensures
        s.sort_by(lex_leq_fn()).sort_by(lex_leq_fn()) == s.sort_by(lex_leq_fn()),
{
    lemma_lex_total_ordering();
    s.lemma_sort_by_ensures(lex_leq_fn());
    lemma_sort_of_sorted(s.sort_by(lex_leq_fn()));
}

/// Removing the element at `i` commutes with taking views.
proof fn lemma_views_remove(a: Seq<String>, i: int)
    requires
        0 <= i < a.len(),
    ensures
        str_views(a.remove(i)) =~= str_views(a).remove(i),
{
}

/// Inserting an element at `i` commutes with taking views.
proof fn lemma_views_insert(a: Seq<String>, i: int, x: String)
    requires
        0 <= i <= a.len(),
    ensures
        str_views(a.insert(i, x)) =~= str_views(a).insert(i, x@),
{
}

/// Sorts the strings in `v` lexicographically by character scalar values.
pub fn sort_strings(v: &mut Vec<String>)
    ensures
        final(v).deep_view() == old(v).deep_view().sort_by(lex_leq_fn()),
        sorted_by(final(v).deep_view(), lex_leq_fn()),
        final(v).deep_view().to_multiset() == old(v).deep_view().to_multiset(),
{
    broadcast use group_to_multiset_ensures, group_multiset_axioms;

    let ghost leq = lex_leq_fn();
    let ghost orig = old(v).deep_view();
    proof {
        lemma_lex_total_ordering();
        assert(v.deep_view() =~= str_views(v@));
    }
    let mut i: usize = 1;
    while i < v.len()
        invariant
            1 <= i,
            v.len() > 0 ==> i <= v.len(),
            v.len() == 0 ==> i == 1,
            v.deep_view() == str_views(v@),
            v.len() > 0 ==> sorted_by(str_views(v@).take(i as int), lex_leq_fn()),
            str_views(v@).to_multiset() == orig.to_multiset(),
            v@.len() == orig.len(),
            total_ordering(lex_leq_fn()),
        decreases v.len() - i,
    {
        let ghost pre = str_views(v@);
        let ghost prev = v@;
        let x = v.remove(i);
        proof {
            lemma_views_remove(prev, i as int);
            assert(str_views(v@) =~= pre.remove(i as int));
        }
        let ghost mid = str_views(v@);
        let mut j: usize = i;
        while j > 0
            invariant
                j <= i,
                i < pre.len(),
                str_views(v@) == mid,
                mid == pre.remove(i as int),
                v@.len() == pre.len() - 1,
                forall|k: int| j <= k < i ==> !lex_leq(#[trigger] mid[k], x@),
                sorted_by(pre.take(i as int), lex_leq_fn()),
                total_ordering(lex_leq_fn()),
            ensures
                j <= i,
                str_views(v@) == mid,
                forall|k: int| j <= k < i ==> !lex_leq(#[trigger] mid[k], x@),
                j > 0 ==> lex_leq(mid[j - 1], x@),
            decreases j,
        {
            proof {
                assert(mid[j - 1] == v@[j - 1]@);
            }
            if str_leq(v[j - 1].as_str(), x.as_str()) {
                break;
            }
            j -= 1;
        }
        let ghost jj = j as int;
        let ghost ii = i as int;
        let ghost midv = v@;
        v.insert(j, x);
        proof {
            let leqf = lex_leq_fn();
            lemma_views_insert(midv, jj, x);
            assert(str_views(v@) =~= mid.insert(jj, x@));
            let post = str_views(v@);
            // The elements before the removal point kept their places.
            assert(forall|k: int| 0 <= k < ii ==> mid[k] == pre.take(ii)[k]);
            // Everything left of the insertion point is at most `x`.
            assert forall|k: int| 0 <= k < jj implies leqf(#[trigger] mid[k], x@) by {
                assert(leqf(mid[jj - 1], x@));
                if k < jj - 1 {
                    assert(mid[k] == pre.take(ii)[k]);
                    assert(mid[jj - 1] == pre.take(ii)[jj - 1]);
                    assert(leqf(pre.take(ii)[k], pre.take(ii)[jj - 1]));
                }
            }
            // Everything from the insertion point up to `ii` exceeds `x`.
            assert forall|k: int| jj <= k < ii implies leqf(x@, #[trigger] mid[k]) by {
                assert(!lex_leq(mid[k], x@));
                assert(leqf(mid[k], x@) || leqf(x@, mid[k]));
            }
            assert forall|p: int, q: int| 0 <= p < q < ii + 1 implies leqf(
                #[trigger] post[p],
                #[trigger] post[q],
            ) by {
                if p < jj {
                    assert(post[p] == mid[p]);
                } else if p == jj {
                    assert(post[p] == x@);
                } else {
                    assert(post[p] == mid[p - 1]);
                }
                if q < jj {
                    assert(post[q] == mid[q]);
                } else if q == jj {
                    assert(post[q] == x@);
                } else {
                    assert(post[q] == mid[q - 1]);
                }
                if q < jj {
                    assert(leqf(pre.take(ii)[p], pre.take(ii)[q]));
                } else if q == jj {
                    assert(leqf(mid[p], x@));
                } else if p < jj {
                    assert(leqf(mid[p], x@));
                    assert(leqf(x@, mid[q - 1]));
                } else if p == jj {
                    assert(leqf(x@, mid[q - 1]));
                } else {
                    assert(leqf(pre.take(ii)[p - 1], pre.take(ii)[q - 1]));
                }
            }
            assert(sorted_by(post.take(ii + 1), lex_leq_fn()));
            // The multiset of views is unchanged: `x` came out at `ii` and
            // went back in at `jj`.
            assert(x@ == pre[ii]);
            vstd::seq_lib::to_multiset_remove(pre, ii);
            assert(mid.to_multiset() == pre.to_multiset().remove(pre[ii]));
            vstd::seq_lib::to_multiset_insert(mid, jj, x@);
            assert(post.to_multiset() == mid.to_multiset().insert(x@));
            vstd::seq_lib::to_multiset_contains(pre, pre[ii]);
            assert(pre.contains(pre[ii]));
            assert(pre.to_multiset().count(pre[ii]) > 0);
            assert(post.to_multiset() =~= pre.to_multiset());
        }
        i += 1;
    }
    proof {
        assert(str_views(v@).take(v@.len() as int) =~= str_views(v@));
        assert(sorted_by(v.deep_view(), lex_leq_fn()));
        orig.lemma_sort_by_ensures(lex_leq_fn());
        lemma_sorted_unique(v.deep_view(), orig.sort_by(lex_leq_fn()), lex_leq_fn());
    }
}

} // verus!
