use network_check::utils::{
    block_vector, check_range, compute_slack, number_of_ones, random_bin_vector, MIN_SIZE, SPREAD,
};
use rand::rngs::StdRng;
use rand::SeedableRng;

#[test]
fn slack_is_what_is_left_of_the_right_hand_side() {
    assert_eq!(compute_slack(&[1, 2, 3], &[true, false, true], 10), 6);
    assert_eq!(compute_slack(&[1, 2, 3], &[false, false, false], 10), 10);
    assert_eq!(compute_slack(&[1, 2, 3], &[true, true, true], 6), 0);
    assert_eq!(compute_slack(&[5, -7, 9], &[true, true, false], -1), 1);
    assert_eq!(compute_slack(&[], &[], 4), 4);
}

#[test]
fn slack_counts_pairs_only() {
    assert_eq!(compute_slack(&[1, 2, 3], &[true], 10), 9);
    assert_eq!(compute_slack(&[1], &[true, true, true], 10), 9);
    assert_eq!(compute_slack(&[1, 2, 3], &[], 10), 10);
}

#[test]
fn slack_may_pass_through_sums_beyond_the_range() {
    let row = [i32::MAX, i32::MAX, i32::MIN, i32::MIN];
    assert_eq!(compute_slack(&row, &[true, true, true, true], 0), 2);
    assert_eq!(compute_slack(&[i32::MIN], &[true], -1), i32::MAX);
    assert_eq!(compute_slack(&[i32::MAX], &[true], -1), i32::MIN);
}

#[test]
fn range_check() {
    assert!(check_range(&[1, 2, 3], 1, 3));
    assert!(check_range(&[], 5, 4));
    assert!(!check_range(&[1, 2, 3], 2, 3));
    assert!(!check_range(&[1, 2, 3], 1, 2));
    assert!(!check_range(&[0], 1, 0));
    assert!(check_range(&[i32::MIN, i32::MAX], i32::MIN, i32::MAX));
    assert!(!check_range(&[5, 5, 5, 4], 5, 5));
}

#[test]
fn number_of_ones_follows_the_draw() {
    assert_eq!(SPREAD, 2);
    assert_eq!(MIN_SIZE, 4);
    assert_eq!(number_of_ones(4, 0), 0);
    assert_eq!(number_of_ones(4, 4), 4);
    assert_eq!(number_of_ones(5, 2), 2);
    assert_eq!(number_of_ones(100, 0), 48);
    assert_eq!(number_of_ones(100, 3), 51);
    assert_eq!(number_of_ones(101, 4), 52);
}

#[test]
fn block_vector_is_ones_then_zeros() {
    assert_eq!(block_vector(0, 0), Vec::<bool>::new());
    assert_eq!(block_vector(2, 3), vec![true, true, false, false, false]);
    assert_eq!(block_vector(0, 2), vec![false, false]);
    assert_eq!(block_vector(3, 0), vec![true, true, true]);
}

#[test]
fn random_vector_has_about_half_ones() {
    for size in [4usize, 5, 6, 17, 64, 1000] {
        for seed in 0..50u64 {
            let mut rng = StdRng::seed_from_u64(seed);
            let v = random_bin_vector(size, &mut rng);
            assert_eq!(v.len(), size);
            let ones = v.iter().filter(|b| **b).count();
            assert!(size / 2 - 2 <= ones && ones <= size / 2 + 2, "{} of {}", ones, size);
        }
    }
}

#[test]
fn random_vector_is_shuffled() {
    // A block of ones followed by a block of zeros has one place where a one
    // stands before a zero; forty such vectors in a row are no accident.
    let mut mixed = 0;
    for seed in 0..40u64 {
        let mut rng = StdRng::seed_from_u64(seed);
        let v = random_bin_vector(64, &mut rng);
        let ones = v.iter().filter(|b| **b).count();
        if v != block_vector(ones, 64 - ones) {
            mixed += 1;
        }
    }
    assert!(mixed >= 39);
}

#[test]
fn random_vector_draws_every_number_of_ones() {
    let mut seen = [false; 5];
    for seed in 0..200u64 {
        let mut rng = StdRng::seed_from_u64(seed);
        let v = random_bin_vector(100, &mut rng);
        let ones = v.iter().filter(|b| **b).count();
        seen[ones - 48] = true;
    }
    assert_eq!(seen, [true; 5]);
}

#[test]
fn same_seed_gives_same_vector() {
    let mut a = StdRng::seed_from_u64(7);
    let mut b = StdRng::seed_from_u64(7);
    assert_eq!(random_bin_vector(32, &mut a), random_bin_vector(32, &mut b));
}
