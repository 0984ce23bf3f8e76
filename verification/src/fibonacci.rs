//! The Fibonacci sequence that starts 1, 1, 2, 3, 5, ...

use vstd::prelude::*;

verus! {

/// The Fibonacci number at position `n`, where positions 0 and 1 both
/// hold 1.
pub open spec fn fib(n: nat) -> nat
    decreases n,
{
    if n < 2 {
        1
    } else {
        fib((n - 1) as nat) + fib((n - 2) as nat)
    }
}

/// The sequence never decreases.
proof fn lemma_fib_monotonic(i: nat, j: nat)
    requires
        i <= j,
    ensures
        fib(i) <= fib(j),
    decreases j - i,
{
    if i < j {
        lemma_fib_monotonic(i, (j - 1) as nat);
    }
}

/// The `n`-th Fibonacci number, counted from 1: input `n` gives the value
/// at position `n - 1` (inputs 0 and 1 both give 1).
pub fn fibonacci(n: usize) -> (r: usize)
    requires
        n >= 2 ==> fib((n - 1) as nat) <= usize::MAX,
    ensures
        n < 2 ==> r == 1,
        n >= 2 ==> r == fib((n - 1) as nat),
{
    if n < 2 {
        return 1;
    }
    let mut sequence: Vec<usize> = Vec::new();
    sequence.push(1);
    sequence.push(1);
    let mut i: usize = 2;
    while i < n
        invariant
            2 <= i <= n,
            n >= 2,
            fib((n - 1) as nat) <= usize::MAX,
            sequence@.len() == i,
            forall|k: int| 0 <= k < i ==> sequence@[k] == fib(k as nat),
        decreases n - i,
    {
        proof {
            lemma_fib_monotonic(i as nat, (n - 1) as nat);
        }
        let next = sequence[i - 1] + sequence[i - 2];
        sequence.push(next);
        i += 1;
    }
    sequence[n - 1]
}

} // verus!
