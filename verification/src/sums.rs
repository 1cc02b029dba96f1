//! Finite sums of integer-valued functions over an index range, with the
//! algebraic lemmas the drainage proofs need: pointwise rewriting, additivity,
//! monotonicity, sums with a single nonzero term, and exchange of a double sum.

use vstd::prelude::*;

verus! {

/// `f(0) + f(1) + ... + f(n - 1)`.
pub open spec fn sum_over(n: nat, f: spec_fn(int) -> int) -> int
    decreases n,
{
    if n == 0 {
        0
    } else {
        sum_over((n - 1) as nat, f) + f(n - 1)
    }
}

/// Functions equal on the range have equal sums.
pub proof fn lemma_sum_ext(n: nat, f: spec_fn(int) -> int, g: spec_fn(int) -> int)
    requires
        forall|i: int| 0 <= i < n ==> #[trigger] f(i) == g(i),
    ensures
        sum_over(n, f) == sum_over(n, g),
    decreases n,
{
    if n > 0 {
        lemma_sum_ext((n - 1) as nat, f, g);
    }
}

/// A pointwise sum of two functions sums to the sum of their sums.
pub proof fn lemma_sum_add(
    n: nat,
    f: spec_fn(int) -> int,
    g: spec_fn(int) -> int,
    h: spec_fn(int) -> int,
)
    requires
        forall|i: int| 0 <= i < n ==> #[trigger] h(i) == f(i) + g(i),
    ensures
        sum_over(n, h) == sum_over(n, f) + sum_over(n, g),
    decreases n,
{
    if n > 0 {
        lemma_sum_add((n - 1) as nat, f, g, h);
    }
}

/// A pointwise bound gives a bound on the sums.
pub proof fn lemma_sum_le(n: nat, f: spec_fn(int) -> int, g: spec_fn(int) -> int)
    requires
        forall|i: int| 0 <= i < n ==> #[trigger] f(i) <= g(i),
    ensures
        sum_over(n, f) <= sum_over(n, g),
    decreases n,
{
    if n > 0 {
        lemma_sum_le((n - 1) as nat, f, g);
    }
}

/// A sum of nonnegative terms is nonnegative.
pub proof fn lemma_sum_nonneg(n: nat, f: spec_fn(int) -> int)
    requires
        forall|i: int| 0 <= i < n ==> #[trigger] f(i) >= 0,
    ensures
        sum_over(n, f) >= 0,
    decreases n,
{
    if n > 0 {
        lemma_sum_nonneg((n - 1) as nat, f);
    }
}

/// A sum of zero terms is zero.
pub proof fn lemma_sum_zero(n: nat, f: spec_fn(int) -> int)
    requires
        forall|i: int| 0 <= i < n ==> #[trigger] f(i) == 0,
    ensures
        sum_over(n, f) == 0,
    decreases n,
{
    if n > 0 {
        lemma_sum_zero((n - 1) as nat, f);
    }
}

/// A sum whose only nonzero term is at `k` equals that term.
pub proof fn lemma_sum_single(n: nat, f: spec_fn(int) -> int, k: int)
    requires
        0 <= k < n,
        forall|i: int| 0 <= i < n && i != k ==> #[trigger] f(i) == 0,
    ensures
        sum_over(n, f) == f(k),
    decreases n,
{
    if k == n - 1 {
        lemma_sum_zero((n - 1) as nat, f);
    } else {
        lemma_sum_single((n - 1) as nat, f, k);
    }
}

/// One term of a sum of nonnegative terms bounds the sum from below.
pub proof fn lemma_sum_ge_single(n: nat, f: spec_fn(int) -> int, k: int)
    requires
        0 <= k < n,
        forall|i: int| 0 <= i < n ==> #[trigger] f(i) >= 0,
    ensures
        sum_over(n, f) >= f(k),
    decreases n,
{
    if k == n - 1 {
        lemma_sum_nonneg((n - 1) as nat, f);
    } else {
        lemma_sum_ge_single((n - 1) as nat, f, k);
    }
}

/// Changing a single term changes the sum by the difference of that term.
pub proof fn lemma_sum_change_one(n: nat, f: spec_fn(int) -> int, g: spec_fn(int) -> int, k: int)
    requires
        0 <= k < n,
        forall|i: int| 0 <= i < n && i != k ==> #[trigger] f(i) == g(i),
    ensures
        sum_over(n, g) == sum_over(n, f) + g(k) - f(k),
    decreases n,
{
    if k == n - 1 {
        lemma_sum_ext((n - 1) as nat, f, g);
    } else {
        lemma_sum_change_one((n - 1) as nat, f, g, k);
    }
}

/// A positive sum of nonnegative terms has a positive term.
pub proof fn lemma_sum_pos_witness(n: nat, f: spec_fn(int) -> int)
    requires
        forall|i: int| 0 <= i < n ==> #[trigger] f(i) >= 0,
        sum_over(n, f) > 0,
    ensures
        exists|i: int| 0 <= i < n && #[trigger] f(i) > 0,
    decreases n,
{
    if n > 0 {
        if f(n - 1) > 0 {
        } else {
            lemma_sum_pos_witness((n - 1) as nat, f);
        }
    }
}

/// Exchanging the order of a double sum.
pub proof fn lemma_sum_swap(n: nat, m: nat, f: spec_fn(int, int) -> int)
    ensures
        sum_over(n, |i: int| sum_over(m, |j: int| f(i, j))) == sum_over(
            m,
            |j: int| sum_over(n, |i: int| f(i, j)),
        ),
    decreases n,
{
    let rows = |i: int| sum_over(m, |j: int| f(i, j));
    let cols = |j: int| sum_over(n, |i: int| f(i, j));
    if n == 0 {
        lemma_sum_zero(m, cols);
    } else {
        let n1 = (n - 1) as nat;
        let cols1 = |j: int| sum_over(n1, |i: int| f(i, j));
        let last = |j: int| f(n - 1, j);
        lemma_sum_swap(n1, m, f);
        assert(sum_over(n, rows) == sum_over(m, cols1) + sum_over(m, last));
        assert(forall|j: int| 0 <= j < m ==> #[trigger] cols(j) == cols1(j) + last(j)) by {
            assert forall|j: int| 0 <= j < m implies #[trigger] cols(j) == cols1(j) + last(j) by {
                reveal_with_fuel(sum_over, 2);
            }
        }
        lemma_sum_add(m, cols1, last, cols);
    }
}

} // verus!
