use dice_maker::control::{run_steps, shrink_until};
use dice_maker::copy;
use dice_maker::layout::{flatten_pairs, pair_up};
use dice_maker::pairs::{first_pair, unordered_pairs};

#[test]
fn copy_keeps_every_element_in_order() {
    let a = [3u32, 1, 4, 1, 5];
    let b = copy(&a);
    assert_eq!(b, [3, 1, 4, 1, 5]);
}

#[test]
fn copy_of_empty_array() {
    let a: [u8; 0] = [];
    assert_eq!(copy(&a), a);
}

#[test]
fn unordered_pairs_of_four_in_lexicographic_order() {
    assert_eq!(
        unordered_pairs(4),
        vec![(0, 1), (0, 2), (0, 3), (1, 2), (1, 3), (2, 3)]
    );
}

#[test]
fn unordered_pairs_count_is_n_choose_two() {
    assert_eq!(unordered_pairs(100).len(), 4950);
}

#[test]
fn unordered_pairs_below_two_are_empty() {
    assert!(unordered_pairs(0).is_empty());
    assert!(unordered_pairs(1).is_empty());
    assert_eq!(unordered_pairs(2), vec![(0, 1)]);
}

#[test]
fn first_pair_returns_earliest_accepted() {
    assert_eq!(first_pair(5, |_i, j| j == 3), Some((0, 3)));
    assert_eq!(first_pair(5, |i, j| i + j == 5), Some((1, 4)));
}

#[test]
fn first_pair_none_when_every_pair_refused() {
    assert_eq!(first_pair(6, |_i, _j| false), None);
}

#[test]
fn first_pair_on_a_single_face_finds_nothing() {
    assert_eq!(first_pair(1, |_i, _j| true), None);
    assert_eq!(first_pair(0, |_i, _j| true), None);
}

#[test]
fn first_pair_tests_only_ordered_pairs_in_range() {
    let r = first_pair(4, |i, j| {
        assert!(i < j && j < 4);
        false
    });
    assert_eq!(r, None);
}

#[test]
fn flatten_pairs_interleaves_components() {
    let pairs = vec![(1i64, 2i64), (3, 4), (5, 6)];
    assert_eq!(flatten_pairs(&pairs), vec![1, 2, 3, 4, 5, 6]);
}

#[test]
fn pair_up_reads_two_at_a_time() {
    let flat = vec![10u8, 20, 30, 40];
    assert_eq!(pair_up(&flat), vec![(10, 20), (30, 40)]);
    assert!(pair_up::<u8>(&vec![]).is_empty());
}

#[test]
fn flatten_then_pair_up_round_trip() {
    let pairs = vec![(7u16, 8u16), (9, 0), (1, 1)];
    assert_eq!(pair_up(&flatten_pairs(&pairs)), pairs);
    let flat = vec![5u16, 6, 7, 8];
    assert_eq!(flatten_pairs(&pair_up(&flat)), flat);
}

#[test]
fn run_steps_calls_each_step_number_once_in_order() {
    let r = run_steps(Vec::new(), 4, |k, mut seen: Vec<usize>| {
        seen.push(k);
        seen
    });
    assert_eq!(r, vec![0, 1, 2, 3]);
}

#[test]
fn run_steps_with_zero_steps_keeps_start() {
    assert_eq!(run_steps(42u64, 0, |_k, s: u64| s + 1), 42);
}

#[test]
fn run_steps_uses_step_number_as_schedule() {
    // 100 - 0 - 1 - 2 - 3 - 4
    assert_eq!(run_steps(100i64, 5, |k, s: i64| s - k as i64), 90);
}

#[test]
fn shrink_until_stops_at_first_accepted_state() {
    let (state, rounds, met) = shrink_until(10u32, 100, |s: &u32| *s <= 7, |s: u32| s - 1);
    assert_eq!((state, rounds, met), (7, 3, true));
}

#[test]
fn shrink_until_accepts_start_without_shrinking() {
    assert_eq!(shrink_until(5u32, 10, |_s: &u32| true, |s: u32| s - 1), (5, 0, true));
}

#[test]
fn shrink_until_gives_up_at_cap() {
    let (state, rounds, met) = shrink_until(50u32, 4, |s: &u32| *s == 0, |s: u32| s - 1);
    assert_eq!((state, rounds, met), (46, 4, false));
}

#[test]
fn shrink_until_with_zero_cap_only_checks() {
    assert_eq!(shrink_until(3u32, 0, |_s: &u32| false, |s: u32| s - 1), (3, 0, false));
}
