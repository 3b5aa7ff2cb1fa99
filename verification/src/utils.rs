//! Helpers for rows of integers and for vectors of choices.

use rand::distributions::{Distribution, Uniform};
use rand::rngs::StdRng;
use rand::seq::SliceRandom;
use vstd::prelude::*;
use vstd::seq_lib::group_to_multiset_ensures;

verus! {

broadcast use group_to_multiset_ensures;

/// The sum of the entries of `row` among the first `upto` that `solution`
/// selects.
pub open spec fn selected_sum(row: Seq<i32>, solution: Seq<bool>, upto: int) -> int
    decreases upto,
{
    if upto <= 0 {
        0
    } else if solution[upto - 1] {
        selected_sum(row, solution, upto - 1) + row[upto - 1]
    } else {
        selected_sum(row, solution, upto - 1)
    }
}

/// How many entries of `row` have a choice in `solution` beside them: the
/// length of the shorter of the two.
pub open spec fn paired(row: Seq<i32>, solution: Seq<bool>) -> int {
    if row.len() <= solution.len() {
        row.len() as int
    } else {
        solution.len() as int
    }
}

/// What is left of `rhs` when the selected entries of `row` are taken away.
pub open spec fn slack(row: Seq<i32>, solution: Seq<bool>, rhs: int) -> int {
    rhs - selected_sum(row, solution, paired(row, solution))
}

/// Computes the slack of a row: what is left of the right-hand side `rhs`
/// when every entry of `row` whose choice in `solution` is `true` is taken
/// away. Entries without a choice beside them, and choices without an entry,
/// do not count.
pub fn compute_slack(row: &[i32], solution: &[bool], rhs: i32) -> (s: i32)
    requires
        i32::MIN <= slack(row@, solution@, rhs as int) <= i32::MAX,
    ensures
        s == slack(row@, solution@, rhs as int),
{
    let len = if row.len() <= solution.len() {
        row.len()
    } else {
        solution.len()
    };
    let mut sum: i128 = 0;
    let mut i: usize = 0;
    while i < len
        invariant
            i <= len,
            len == paired(row@, solution@),
            sum == selected_sum(row@, solution@, i as int),
            -(i * 0x8000_0000) <= sum <= i * 0x8000_0000,
        decreases len - i,
    {
        if solution[i] {
            sum += row[i] as i128;
        }
        i += 1;
    }
    (rhs as i128 - sum) as i32
}

/// Whether every entry of `row` lies in `low..=high`.
pub open spec fn within(row: Seq<i32>, low: int, high: int) -> bool {
    forall|i: int| 0 <= i < row.len() ==> low <= #[trigger] row[i] <= high
}

/// Tells whether every entry of `row` lies between `low` and `high`, both
/// included.
pub fn check_range(row: &[i32], low: i32, high: i32) -> (ok: bool)
    ensures
        ok == within(row@, low as int, high as int),
{
    let mut i: usize = 0;
    while i < row.len()
        invariant
            i <= row.len(),
            within(row@.take(i as int), low as int, high as int),
        decreases row.len() - i,
    {
        if row[i] < low || row[i] > high {
            return false;
        }
        assert forall|k: int| 0 <= k < i + 1 implies low <= #[trigger] row@.take(i + 1)[k]
            <= high by {
            if k < i {
                assert(row@.take(i as int)[k] == row@[k]);
            }
        }
        i += 1;
    }
    assert(row@.take(i as int) =~= row@);
    true
}

/// The standard generator of the crate `rand`. Nothing is known of its
/// state.
#[verifier::external_type_specification]
#[verifier::external_body]
pub struct ExStdRng(rand::rngs::StdRng);

/// Draws a number from `low` to `high`, both included, with
/// `Uniform::new_inclusive(low, high).sample(rng)` of the crate `rand`. That
/// the number lies in the range is taken from the crate; which number it is
/// depends on the generator.
#[verifier::external_body]
fn draw_inclusive(low: usize, high: usize, rng: &mut StdRng) -> (drawn: usize)
    requires
        low <= high,
    ensures
        low <= drawn <= high,
{
    Uniform::new_inclusive(low, high).sample(rng)
}

/// Puts the entries of `choices` into a random order with `shuffle` of the
/// crate `rand`, which swaps entries and nothing else: taken from the crate
/// is that the same entries are there afterwards, each as often as before.
#[verifier::external_body]
fn shuffle(choices: &mut Vec<bool>, rng: &mut StdRng)
    ensures
        final(choices)@.to_multiset() == old(choices)@.to_multiset(),
{
    choices.shuffle(rng);
}

/// How many entries of `choices` are `true`.
pub open spec fn count_ones(choices: Seq<bool>) -> nat {
    choices.to_multiset().count(true)
}

/// The largest distance between the number of ones in a random vector and
/// half its size.
pub const SPREAD: usize = 2;

/// The smallest size of a random vector.
pub const MIN_SIZE: usize = 2 * SPREAD;

/// How many ones a vector of `size` entries gets when `drawn` comes out of
/// the draw from `0..=2 * SPREAD`: half the size, `drawn` more and `SPREAD`
/// less.
pub open spec fn ones_for(size: int, drawn: int) -> int {
    size / 2 + drawn - SPREAD
}

/// Tells how many ones a vector of `size` entries gets when `drawn` comes out
/// of the draw.
pub fn number_of_ones(size: usize, drawn: usize) -> (ones: usize)
    requires
        size >= MIN_SIZE,
        drawn <= 2 * SPREAD,
    ensures
        ones == ones_for(size as int, drawn as int),
        ones <= size,
{
    size / 2 + drawn - SPREAD
}

/// A vector of `ones` times `true` followed by `zeros` times `false`.
pub fn block_vector(ones: usize, zeros: usize) -> (choices: Vec<bool>)
    requires
        ones + zeros <= usize::MAX,
    ensures
        choices@ == Seq::new((ones + zeros) as nat, |i: int| i < ones),
        count_ones(choices@) == ones,
{
    let mut choices: Vec<bool> = Vec::new();
    let mut i: usize = 0;
    while i < ones
        invariant
            i <= ones,
            choices@ == Seq::new(i as nat, |k: int| true),
            count_ones(choices@) == i,
        decreases ones - i,
    {
        let ghost before = choices@;
        choices.push(true);
        i += 1;
        assert(choices@ =~= Seq::new(i as nat, |k: int| true));
        assert(choices@.to_multiset() =~= before.to_multiset().insert(true));
    }
    let mut j: usize = 0;
    assert(choices@ =~= Seq::new(ones as nat, |k: int| k < ones));
    while j < zeros
        invariant
            j <= zeros,
            ones + zeros <= usize::MAX,
            choices@ == Seq::new((ones + j) as nat, |k: int| k < ones),
            count_ones(choices@) == ones,
        decreases zeros - j,
    {
        let ghost before = choices@;
        choices.push(false);
        j += 1;
        assert(choices@ =~= Seq::new((ones + j) as nat, |k: int| k < ones));
        assert(choices@.to_multiset() =~= before.to_multiset().insert(false));
    }
    choices
}

/// Makes a random vector of `size` choices. About half of them are `true`:
/// half the size, give or take `SPREAD`. Which they are, and how many
/// exactly, depends on the generator.
pub fn random_bin_vector(size: usize, rng: &mut StdRng) -> (choices: Vec<bool>)
    requires
        size >= MIN_SIZE,
    ensures
        choices@.len() == size,
        size / 2 - SPREAD <= count_ones(choices@) <= size / 2 + SPREAD,
{
    let drawn = draw_inclusive(0, 2 * SPREAD, rng);
    let ones = number_of_ones(size, drawn);
    let mut choices = block_vector(ones, size - ones);
    let ghost block = choices@;
    shuffle(&mut choices, rng);
    assert(choices@.len() == size) by {
        assert(choices@.to_multiset().len() == choices@.len());
        assert(block.to_multiset().len() == block.len());
    }
    choices
}

} // verus!
