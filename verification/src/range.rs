//! Sums and searches over the numbers `1..=n`, by which nodes and commodities
//! are numbered.

use vstd::prelude::*;

verus! {

/// The sum of `f(1)`, ..., `f(n)`.
pub open spec fn sum_to(f: spec_fn(int) -> nat, n: int) -> nat
    decreases n,
{
    if n <= 0 {
        0
    } else {
        sum_to(f, n - 1) + f(n)
    }
}

/// The first of the numbers `from..=n` for which `hit` holds, or `n + 1`
/// where it holds for none of them.
pub open spec fn first_from(hit: spec_fn(int) -> bool, from: int, n: int) -> int
    decreases n + 1 - from,
{
    if from <= n && !hit(from) {
        first_from(hit, from + 1, n)
    } else {
        from
    }
}

/// The first of the numbers `1..=n` for which `hit` holds, or `n + 1` where
/// it holds for none of them.
pub open spec fn first(hit: spec_fn(int) -> bool, n: int) -> int {
    first_from(hit, 1, n)
}

/// Whether `hit` holds for none of the numbers `1..=n`.
pub open spec fn nowhere(hit: spec_fn(int) -> bool, n: int) -> bool {
    forall|i: int| 1 <= i <= n ==> !#[trigger] hit(i)
}

/// A sum is bounded by the number of its terms times a bound on each term.
pub proof fn lemma_sum_bound(f: spec_fn(int) -> nat, n: int, bound: nat)
    requires
        0 <= n,
        forall|t: int| 1 <= t <= n ==> #[trigger] f(t) <= bound,
    ensures
        sum_to(f, n) <= n * bound,
    decreases n,
{
    if n > 0 {
        lemma_sum_bound(f, n - 1, bound);
        assert((n - 1) * bound + bound == n * bound) by (nonlinear_arith);
    }
}

/// A sum in which one term is larger by one than in another sum, and the
/// other terms are the same, is larger by one.
pub proof fn lemma_sum_one_more(f: spec_fn(int) -> nat, g: spec_fn(int) -> nat, n: int, at: int)
    requires
        1 <= at <= n,
        f(at) == g(at) + 1,
        forall|t: int| 1 <= t <= n && t != at ==> #[trigger] f(t) == g(t),
    ensures
        sum_to(f, n) == sum_to(g, n) + 1,
    decreases n,
{
    if n == at {
        lemma_sum_same(f, g, n - 1);
    } else {
        lemma_sum_one_more(f, g, n - 1, at);
    }
}

/// Two sums with the same terms are the same.
pub proof fn lemma_sum_same(f: spec_fn(int) -> nat, g: spec_fn(int) -> nat, n: int)
    requires
        forall|t: int| 1 <= t <= n ==> #[trigger] f(t) == g(t),
    ensures
        sum_to(f, n) == sum_to(g, n),
    decreases n,
{
    if n > 0 {
        lemma_sum_same(f, g, n - 1);
    }
}

/// Where `n` terms that are one or more each add up to `n`, each is one.
pub proof fn lemma_sum_of_ones(f: spec_fn(int) -> nat, n: int)
    requires
        0 <= n,
        forall|t: int| 1 <= t <= n ==> #[trigger] f(t) >= 1,
    ensures
        sum_to(f, n) >= n,
        sum_to(f, n) == n ==> forall|t: int| 1 <= t <= n ==> #[trigger] f(t) == 1,
    decreases n,
{
    if n > 0 {
        lemma_sum_of_ones(f, n - 1);
    }
}

/// What a search finds: a number in `from..=n + 1` before which there is no
/// hit, and which is a hit itself unless it is `n + 1`.
pub proof fn lemma_first_from(hit: spec_fn(int) -> bool, from: int, n: int)
    requires
        from <= n + 1,
    ensures
        from <= first_from(hit, from, n) <= n + 1,
        forall|i: int| from <= i < first_from(hit, from, n) ==> !#[trigger] hit(i),
        first_from(hit, from, n) <= n ==> hit(first_from(hit, from, n)),
    decreases n + 1 - from,
{
    if from <= n && !hit(from) {
        lemma_first_from(hit, from + 1, n);
    }
}

/// A search finds nothing exactly where there is nothing to find.
pub proof fn lemma_first_none(hit: spec_fn(int) -> bool, n: int)
    requires
        0 <= n,
    ensures
        first(hit, n) == n + 1 <==> nowhere(hit, n),
        1 <= first(hit, n) <= n + 1,
{
    lemma_first_from(hit, 1, n);
}

/// The first hit is the only number that is a hit with no hit before it.
pub proof fn lemma_first_is(hit: spec_fn(int) -> bool, n: int, at: int)
    requires
        1 <= at <= n,
        hit(at),
        forall|i: int| 1 <= i < at ==> !#[trigger] hit(i),
    ensures
        first(hit, n) == at,
{
    lemma_first_from(hit, 1, n);
}

} // verus!
