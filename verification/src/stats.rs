//! The mode of a list of six integers.
//!
//! Counting is deterministic: values are tallied in the order of their
//! first occurrence.  The final scan carries a deliberate quirk — each
//! value's count is compared against the previously selected *value*, not
//! against that value's count.

use vstd::prelude::*;

verus! {

/// How many times `x` occurs in `s`.
pub open spec fn count_of(s: Seq<i32>, x: i32) -> int
    decreases s.len(),
{
    if s.len() == 0 {
        0
    } else {
        (if s[0] == x {
            1int
        } else {
            0int
        }) + count_of(s.drop_first(), x)
    }
}

/// The values of `s` in order of first occurrence, after those already in
/// `acc`.
pub open spec fn distinct_rec(s: Seq<i32>, acc: Seq<i32>) -> Seq<i32>
    decreases s.len(),
{
    if s.len() == 0 {
        acc
    } else if acc.contains(s[0]) {
        distinct_rec(s.drop_first(), acc)
    } else {
        distinct_rec(s.drop_first(), acc.push(s[0]))
    }
}

/// The values of `s`, each once, in order of first occurrence.
pub open spec fn distinct_values(s: Seq<i32>) -> Seq<i32> {
    distinct_rec(s, Seq::empty())
}

/// One pass over the tallied values: a value replaces the current pick when
/// its count exceeds the current pick itself.
pub open spec fn mode_fold(keys: Seq<i32>, full: Seq<i32>, current: i32) -> i32
    decreases keys.len(),
{
    if keys.len() == 0 {
        current
    } else {
        let next = if count_of(full, keys[0]) > current as int {
            keys[0]
        } else {
            current
        };
        mode_fold(keys.drop_first(), full, next)
    }
}

/// What the mode scan picks for `s`, starting from 0.
pub open spec fn find_mode_spec(s: Seq<i32>) -> i32 {
    mode_fold(distinct_values(s), s, 0)
}

/// A count never exceeds the length counted over.
proof fn lemma_count_le_len(s: Seq<i32>, x: i32)
    ensures
        0 <= count_of(s, x) <= s.len(),
    decreases s.len(),
{
    if s.len() > 0 {
        lemma_count_le_len(s.drop_first(), x);
    }
}

/// Counting one more element extends the count over the prefix.
proof fn lemma_count_take_succ(s: Seq<i32>, x: i32, i: int)
    requires
        0 <= i < s.len(),
    ensures
        count_of(s.take(i + 1), x) == count_of(s.take(i), x) + (if s[i] == x {
            1int
        } else {
            0int
        }),
    decreases i,
{
    if i == 0 {
        assert(s.take(1) =~= seq![s[0]]);
        assert(s.take(1).drop_first() =~= Seq::<i32>::empty());
        assert(s.take(0) =~= Seq::<i32>::empty());
    } else {
        lemma_count_take_succ(s.drop_first(), x, i - 1);
        assert(s.take(i + 1).drop_first() =~= s.drop_first().take(i));
        assert(s.take(i).drop_first() =~= s.drop_first().take(i - 1));
        assert(s.drop_first()[i - 1] == s[i]);
    }
}

/// A value absent from a prefix has count zero over it.
proof fn lemma_count_zero_when_absent(full: Seq<i32>, x: i32, i: int)
    requires
        0 <= i <= full.len(),
        forall|k: int| 0 <= k < i ==> full[k] != x,
    ensures
        count_of(full.take(i), x) == 0,
    decreases i,
{
    if i > 0 {
        lemma_count_zero_when_absent(full, x, i - 1);
        lemma_count_take_succ(full, x, i - 1);
    }
}

/// The keys of a tally list.
pub open spec fn tally_keys(counts: Seq<(i32, i32)>) -> Seq<i32> {
    counts.map_values(|p: (i32, i32)| p.0)
}

/// Whether some tally entry carries the key `x`.
pub open spec fn tally_has(counts: Seq<(i32, i32)>, x: i32) -> bool {
    exists|j: int| 0 <= j < counts.len() && #[trigger] counts[j].0 == x
}

/// Picks `find_mode_spec` of the six values: the first-occurrence tally
/// folded by the quirky selection rule.
pub fn _find_mode(integers_list: &[i32; 6]) -> (r: i32)
    ensures
        r == find_mode_spec(integers_list@),
{
    let ghost full = integers_list@;
    let mut counts: Vec<(i32, i32)> = Vec::new();
    let mut i: usize = 0;
    proof {
        assert(full.skip(0) =~= full);
        assert(full.take(0) =~= Seq::<i32>::empty());
        assert(tally_keys(counts@) =~= Seq::<i32>::empty());
    }
    while i < 6
        invariant
            i <= 6,
            full.len() == 6,
            full == integers_list@,
            distinct_rec(full.skip(i as int), tally_keys(counts@)) == distinct_values(full),
            forall|j: int|
                0 <= j < counts@.len() ==> #[trigger] counts@[j].1 == count_of(
                    full.take(i as int),
                    counts@[j].0,
                ),
            forall|j: int, k: int| 0 <= j < k < counts@.len() ==> counts@[j].0 != counts@[k].0,
            forall|k: int| 0 <= k < i ==> #[trigger] tally_has(counts@, full[k]),
            counts@.len() <= i,
        decreases 6 - i,
    {
        let num = integers_list[i];
        let ghost keys = tally_keys(counts@);
        let ghost precounts = counts@;
        proof {
            assert(full.skip(i as int)[0] == num);
            assert(full.skip(i as int).drop_first() =~= full.skip(i + 1 as int));
        }
        let mut j: usize = 0;
        let mut found = false;
        while j < counts.len()
            invariant_except_break
                !found,
            invariant
                j <= counts@.len(),
                counts@ == precounts,
                forall|k: int| 0 <= k < j ==> counts@[k].0 != num,
            ensures
                found ==> j < counts@.len() && counts@[j as int].0 == num,
                !found ==> forall|k: int| 0 <= k < counts@.len() ==> counts@[k].0 != num,
            decreases counts@.len() - j,
        {
            if counts[j].0 == num {
                found = true;
                break;
            }
            j += 1;
        }
        if found {
            let pair = counts[j];
            proof {
                lemma_count_le_len(full.take(i as int), num);
            }
            counts[j] = (pair.0, pair.1 + 1);
            proof {
                assert(tally_keys(counts@) =~= keys);
                assert(keys[j as int] == num);
                assert(keys.contains(num));
                assert(distinct_rec(full.skip(i as int), keys) == distinct_rec(
                    full.skip(i + 1 as int),
                    keys,
                ));
            }
        } else {
            counts.push((num, 1));
            proof {
                assert(!keys.contains(num)) by {
                    if keys.contains(num) {
                        let w = choose|w: int| 0 <= w < keys.len() && keys[w] == num;
                        assert(precounts[w].0 == num);
                    }
                }
                assert(tally_keys(counts@) =~= keys.push(num));
                assert(distinct_rec(full.skip(i as int), keys) == distinct_rec(
                    full.skip(i + 1 as int),
                    keys.push(num),
                ));
            }
        }
        proof {
            assert forall|jx: int| 0 <= jx < counts@.len() implies #[trigger] counts@[jx].1
                == count_of(full.take(i + 1 as int), counts@[jx].0) by {
                lemma_count_take_succ(full, counts@[jx].0, i as int);
                if found {
                    if jx != j as int {
                        assert(counts@[jx] == precounts[jx]);
                        assert(precounts[jx].0 != num);
                    }
                } else {
                    if jx < precounts.len() {
                        assert(counts@[jx] == precounts[jx]);
                        assert(precounts[jx].0 != num);
                    } else {
                        assert(counts@[jx] == (num, 1i32));
                        assert forall|k: int| 0 <= k < i implies full[k] != num by {
                            if full[k] == num {
                                assert(tally_has(precounts, full[k]));
                                let w = choose|w: int|
                                    0 <= w < precounts.len() && #[trigger] precounts[w].0
                                        == full[k];
                                assert(precounts[w].0 == num);
                            }
                        }
                        lemma_count_zero_when_absent(full, num, i as int);
                    }
                }
            }
            assert forall|k: int| 0 <= k < i + 1 implies #[trigger] tally_has(
                counts@,
                full[k],
            ) by {
                if k < i {
                    assert(tally_has(precounts, full[k]));
                    let w = choose|w: int|
                        0 <= w < precounts.len() && #[trigger] precounts[w].0 == full[k];
                    assert(counts@[w].0 == full[k]);
                } else {
                    if found {
                        assert(counts@[j as int].0 == full[k]);
                    } else {
                        assert(counts@[counts@.len() - 1].0 == full[k]);
                    }
                }
            }
        }
        i += 1;
    }
    proof {
        assert(full.skip(6) =~= Seq::<i32>::empty());
        assert(full.take(6) =~= full);
        assert(distinct_values(full) == tally_keys(counts@));
    }
    let ghost keys = tally_keys(counts@);
    let mut mode: i32 = 0;
    let mut j: usize = 0;
    proof {
        assert(keys.skip(0) =~= keys);
    }
    while j < counts.len()
        invariant
            j <= counts@.len(),
            keys == tally_keys(counts@),
            full == integers_list@,
            forall|k: int|
                0 <= k < counts@.len() ==> #[trigger] counts@[k].1 == count_of(full, counts@[k].0),
            mode_fold(keys.skip(j as int), full, mode) == mode_fold(keys, full, 0),
        decreases counts@.len() - j,
    {
        proof {
            assert(keys.skip(j as int)[0] == counts@[j as int].0);
            assert(keys.skip(j as int).drop_first() =~= keys.skip(j + 1 as int));
        }
        if counts[j].1 > mode {
            mode = counts[j].0;
        }
        j += 1;
    }
    proof {
        assert(keys.skip(counts@.len() as int) =~= Seq::<i32>::empty());
    }
    mode
}

} // verus!
