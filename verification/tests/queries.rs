use exotic_iter::scan;
use exotic_iter::ExoticIteratorExt;
use std::cell::RefCell;

fn is_two(n: &i32) -> bool {
    *n == 2
}

fn is_even(n: &i32) -> bool {
    *n % 2 == 0
}

#[test]
fn at_least_with_one_match_of_three_is_false() {
    let very_few_twos: Vec<i32> = vec![1, 2, 3, 4, 5, 6];
    assert_eq!(false, very_few_twos.into_iter().at_least(3_usize, |n| *n == 2));
}

#[test]
fn at_least_with_three_matches_of_three_is_true() {
    let lots_of_twos: Vec<i32> = vec![2, 3, 2, 4, 2, 5];
    assert_eq!(true, lots_of_twos.into_iter().at_least(3_usize, |n| *n == 2));
}

#[test]
fn at_most_accepts_the_threshold_and_rejects_more() {
    let just_enough_twos: Vec<i32> = vec![1, 1, 2, 2, 3, 3];
    let too_many_twos: Vec<i32> = vec![2, 2, 2, 2, 2, 2];
    assert_eq!(true, just_enough_twos.into_iter().at_most(2_usize, |n| *n == 2));
    assert_eq!(false, too_many_twos.into_iter().at_most(2_usize, |n| *n == 2));
}

#[test]
fn exactly_n_counts_digits() {
    let no_digits = "deadbeef";
    let two_digits = "deadb33f";
    let three_digits = "d3adb33f";
    assert_eq!(false, no_digits.chars().exactly_n(2_usize, |c| c.is_ascii_digit()));
    assert_eq!(true, two_digits.chars().exactly_n(2_usize, |c| c.is_ascii_digit()));
    assert_eq!(false, three_digits.chars().exactly_n(2_usize, |c| c.is_ascii_digit()));
}

#[test]
fn exactly_m_n_counts_letters_and_digits() {
    let more_digits = "abc12345";
    let balanced_digits = "abcd1234";
    let more_letters = "abcde123";
    assert_eq!(
        false,
        more_digits.chars().exactly_m_n(
            4_usize,
            |c| c.is_ascii_alphabetic(),
            4_usize,
            |c| c.is_ascii_digit()
        )
    );
    assert_eq!(
        true,
        balanced_digits.chars().exactly_m_n(
            4_usize,
            |c| c.is_ascii_alphabetic(),
            4_usize,
            |c| c.is_ascii_digit()
        )
    );
    assert_eq!(
        false,
        more_letters.chars().exactly_m_n(
            4_usize,
            |c| c.is_ascii_alphabetic(),
            4_usize,
            |c| c.is_ascii_digit()
        )
    );
}

#[test]
fn all_or_none_on_uniform_and_mixed_items() {
    let all_true: Vec<bool> = vec![true, true, true];
    let some_true: Vec<bool> = vec![true, false, true];
    let none_true: Vec<bool> = vec![false, false, false];
    assert_eq!(true, all_true.into_iter().all_or_none(|b| *b));
    assert_eq!(false, some_true.into_iter().all_or_none(|b| *b));
    assert_eq!(true, none_true.into_iter().all_or_none(|b| *b));
}

#[test]
fn perfectly_balanced_wants_exactly_half() {
    let two_even: Vec<i32> = vec![1, 2, 3, 4];
    let three_even: Vec<i32> = vec![1, 2, 4, 6];
    assert_eq!(true, two_even.into_iter().perfectly_balanced(|n| *n % 2 == 0));
    assert_eq!(false, three_even.into_iter().perfectly_balanced(|n| *n % 2 == 0));
}

#[test]
fn perfectly_balanced_rejects_an_odd_number_of_items() {
    let odd: Vec<i32> = vec![2, 1, 2];
    assert_eq!(false, odd.into_iter().perfectly_balanced(is_even));
    let one: Vec<i32> = vec![1];
    assert_eq!(false, one.into_iter().perfectly_balanced(is_even));
    // Five items, two matches: the halved length alone would agree.
    let five: Vec<i32> = vec![2, 2, 1, 1, 1];
    assert_eq!(false, five.into_iter().perfectly_balanced(is_even));
}

#[test]
fn empty_input_gives_the_trivial_verdicts() {
    let none: Vec<i32> = Vec::new();
    assert_eq!(true, none.clone().into_iter().at_least(0_usize, is_two));
    assert_eq!(false, none.clone().into_iter().at_least(1_usize, is_two));
    assert_eq!(true, none.clone().into_iter().at_most(0_usize, is_two));
    assert_eq!(true, none.clone().into_iter().at_most(7_usize, is_two));
    assert_eq!(true, none.clone().into_iter().exactly_n(0_usize, is_two));
    assert_eq!(false, none.clone().into_iter().exactly_n(1_usize, is_two));
    assert_eq!(true, none.clone().into_iter().exactly_m_n(0_usize, is_two, 0_usize, is_even));
    assert_eq!(false, none.clone().into_iter().exactly_m_n(0_usize, is_two, 1_usize, is_even));
    assert_eq!(true, none.clone().into_iter().all_or_none(is_two));
    assert_eq!(true, none.into_iter().perfectly_balanced(is_two));
}

#[test]
fn at_least_and_at_most_agree_only_at_the_count() {
    // Three items match.
    let items: Vec<i32> = vec![2, 7, 2, 9, 2];
    let mut n: usize = 0;
    while n <= 6 {
        let least = items.clone().into_iter().at_least(n, is_two);
        let most = items.clone().into_iter().at_most(n, is_two);
        let exact = items.clone().into_iter().exactly_n(n, is_two);
        assert_eq!(least, 3 >= n);
        assert_eq!(most, 3 <= n);
        assert_eq!(exact, n == 3);
        assert_eq!(least && most, n == 3);
        n += 1;
    }
}

#[test]
fn exactly_m_n_needs_both_counts_at_once() {
    // Two twos, three even numbers.
    let items: Vec<i32> = vec![2, 4, 2, 5, 7];
    let mut m: usize = 0;
    while m <= 4 {
        let mut n: usize = 0;
        while n <= 4 {
            let both = items.clone().into_iter().exactly_m_n(m, is_two, n, is_even);
            assert_eq!(both, m == 2 && n == 3);
            n += 1;
        }
        m += 1;
    }
}

#[test]
fn all_or_none_is_true_for_none_all_and_empty_only() {
    let none_pass: Vec<i32> = vec![1, 3, 5];
    let all_pass: Vec<i32> = vec![2, 4, 6];
    let first_fails: Vec<i32> = vec![1, 2, 4];
    let last_fails: Vec<i32> = vec![2, 4, 5];
    let single: Vec<i32> = vec![9];
    assert_eq!(true, none_pass.into_iter().all_or_none(is_even));
    assert_eq!(true, all_pass.into_iter().all_or_none(is_even));
    assert_eq!(false, first_fails.into_iter().all_or_none(is_even));
    assert_eq!(false, last_fails.into_iter().all_or_none(is_even));
    assert_eq!(true, single.into_iter().all_or_none(is_even));
}

#[test]
fn threshold_zero_fails_at_the_first_match() {
    let items: Vec<i32> = vec![1, 3, 2, 5, 2];
    let mut calls: usize = 0;
    let verdict = items.clone().into_iter().exactly_n(0_usize, |n| {
        calls += 1;
        *n == 2
    });
    assert_eq!(false, verdict);
    assert_eq!(3, calls);
    let mut calls_m: usize = 0;
    let mut calls_n: usize = 0;
    let verdict = items.into_iter().exactly_m_n(
        5_usize,
        |n| {
            calls_m += 1;
            *n % 2 == 1
        },
        0_usize,
        |n| {
            calls_n += 1;
            *n == 2
        },
    );
    assert_eq!(false, verdict);
    assert_eq!(3, calls_m);
    assert_eq!(3, calls_n);
}

#[test]
fn at_least_stops_right_after_the_nth_match() {
    let items: Vec<i32> = vec![2, 3, 2, 4, 2, 5];
    let mut iter = items.into_iter();
    assert_eq!(true, scan::at_least(&mut iter, 2_usize, is_two));
    let left: Vec<i32> = iter.collect();
    assert_eq!(vec![4, 2, 5], left);
}

#[test]
fn at_least_zero_pulls_nothing() {
    let items: Vec<i32> = vec![2, 3];
    let mut iter = items.into_iter();
    let mut calls: usize = 0;
    let verdict = scan::at_least(&mut iter, 0_usize, |n| {
        calls += 1;
        *n == 2
    });
    assert_eq!(true, verdict);
    assert_eq!(0, calls);
    let left: Vec<i32> = iter.collect();
    assert_eq!(vec![2, 3], left);
}

#[test]
fn at_least_drains_the_iterator_when_matches_run_short() {
    let items: Vec<i32> = vec![2, 3, 4];
    let mut iter = items.into_iter();
    assert_eq!(false, scan::at_least(&mut iter, 2_usize, is_two));
    assert_eq!(None, iter.next());
}

#[test]
fn at_least_answers_on_an_unbounded_iterator() {
    assert_eq!(true, std::iter::repeat(2).at_least(3_usize, is_two));
    let mut naturals = 0..;
    assert_eq!(true, scan::at_least(&mut naturals, 3_usize, is_even));
    // 0, 1, 2, 3, 4 were pulled: 4 is the third even number.
    assert_eq!(Some(5), naturals.next());
}

#[test]
fn at_most_stops_right_after_the_match_over_the_threshold() {
    let items: Vec<i32> = vec![1, 2, 2, 3, 2, 4, 2];
    let mut iter = items.clone().into_iter();
    assert_eq!(false, scan::at_most(&mut iter, 2_usize, is_two));
    let left: Vec<i32> = iter.collect();
    assert_eq!(vec![4, 2], left);
    let mut iter = items.into_iter();
    assert_eq!(true, scan::at_most(&mut iter, 4_usize, is_two));
    assert_eq!(None, iter.next());
    assert_eq!(false, std::iter::repeat(2).at_most(9_usize, is_two));
}

#[test]
fn exactly_n_stops_right_after_the_match_over_the_threshold() {
    let items: Vec<i32> = vec![2, 1, 2, 1, 2, 1, 2];
    let mut iter = items.clone().into_iter();
    assert_eq!(false, scan::exactly_n(&mut iter, 2_usize, is_two));
    let left: Vec<i32> = iter.collect();
    assert_eq!(vec![1, 2], left);
    let mut iter = items.clone().into_iter();
    assert_eq!(true, scan::exactly_n(&mut iter, 4_usize, is_two));
    assert_eq!(None, iter.next());
    let mut iter = items.into_iter();
    assert_eq!(false, scan::exactly_n(&mut iter, 5_usize, is_two));
    assert_eq!(None, iter.next());
    assert_eq!(false, std::iter::repeat(2).exactly_n(9_usize, is_two));
}

#[test]
fn exactly_m_n_stops_at_the_first_count_that_goes_over() {
    // Twos at places 0, 3, 5; odd numbers at places 1, 2, 4, 6.
    let items: Vec<i32> = vec![2, 1, 3, 2, 5, 2, 7];
    let is_odd = |n: &i32| *n % 2 == 1;
    let mut iter = items.clone().into_iter();
    assert_eq!(false, scan::exactly_m_n(&mut iter, 1_usize, is_two, 9_usize, is_odd));
    let left: Vec<i32> = iter.collect();
    assert_eq!(vec![5, 2, 7], left);
    let mut iter = items.clone().into_iter();
    assert_eq!(false, scan::exactly_m_n(&mut iter, 9_usize, is_two, 2_usize, is_odd));
    let left: Vec<i32> = iter.collect();
    assert_eq!(vec![2, 7], left);
    let mut iter = items.clone().into_iter();
    assert_eq!(true, scan::exactly_m_n(&mut iter, 3_usize, is_two, 4_usize, is_odd));
    assert_eq!(None, iter.next());
    let mut iter = items.into_iter();
    assert_eq!(false, scan::exactly_m_n(&mut iter, 3_usize, is_two, 5_usize, is_odd));
    assert_eq!(None, iter.next());
}

#[test]
fn exactly_m_n_applies_both_predicates_to_every_item_in_order() {
    let log: RefCell<Vec<(char, i32)>> = RefCell::new(Vec::new());
    let items: Vec<i32> = vec![2, 2, 3, 2];
    // The first tally is at its threshold after one item; the second goes on.
    let verdict = items.into_iter().exactly_m_n(
        3_usize,
        |n| {
            log.borrow_mut().push(('m', *n));
            *n == 2
        },
        1_usize,
        |n| {
            log.borrow_mut().push(('n', *n));
            *n == 3
        },
    );
    assert_eq!(true, verdict);
    let expected: Vec<(char, i32)> =
        vec![('m', 2), ('n', 2), ('m', 2), ('n', 2), ('m', 3), ('n', 3), ('m', 2), ('n', 2)];
    assert_eq!(expected, log.into_inner());
}

#[test]
fn exactly_m_n_applies_the_second_predicate_to_the_item_that_fails_the_first() {
    let log: RefCell<Vec<(char, i32)>> = RefCell::new(Vec::new());
    let items: Vec<i32> = vec![2, 2, 3];
    let verdict = items.into_iter().exactly_m_n(
        1_usize,
        |n| {
            log.borrow_mut().push(('m', *n));
            *n == 2
        },
        1_usize,
        |n| {
            log.borrow_mut().push(('n', *n));
            *n == 3
        },
    );
    assert_eq!(false, verdict);
    let expected: Vec<(char, i32)> = vec![('m', 2), ('n', 2), ('m', 2), ('n', 2)];
    assert_eq!(expected, log.into_inner());
}

#[test]
fn all_or_none_stops_at_the_first_mixed_evidence() {
    let items: Vec<i32> = vec![2, 4, 6, 7, 8, 9];
    let mut iter = items.into_iter();
    assert_eq!(false, scan::all_or_none(&mut iter, is_even));
    let left: Vec<i32> = iter.collect();
    assert_eq!(vec![8, 9], left);
    let items: Vec<i32> = vec![1, 2, 4];
    let mut iter = items.into_iter();
    assert_eq!(false, scan::all_or_none(&mut iter, is_even));
    let left: Vec<i32> = iter.collect();
    assert_eq!(vec![4], left);
    let items: Vec<i32> = vec![1, 3, 5];
    let mut iter = items.into_iter();
    assert_eq!(true, scan::all_or_none(&mut iter, is_even));
    assert_eq!(None, iter.next());
    assert_eq!(false, (0..).all_or_none(is_even));
}

#[test]
fn perfectly_balanced_pulls_every_item() {
    let items: Vec<i32> = vec![1, 2, 4, 6];
    let mut iter = items.into_iter();
    let mut calls: usize = 0;
    let verdict = scan::perfectly_balanced(&mut iter, |n| {
        calls += 1;
        *n % 2 == 0
    });
    assert_eq!(false, verdict);
    assert_eq!(4, calls);
    assert_eq!(None, iter.next());
}

#[test]
fn a_stateful_predicate_is_called_once_per_item_in_order() {
    let items: Vec<i32> = vec![5, 6, 7, 8];
    let mut seen: Vec<i32> = Vec::new();
    // Passes every second item it is shown.
    let verdict = items.into_iter().perfectly_balanced(|n| {
        seen.push(*n);
        seen.len() % 2 == 0
    });
    assert_eq!(true, verdict);
    assert_eq!(vec![5, 6, 7, 8], seen);
}

#[test]
fn queries_take_borrowed_items() {
    let odd_numbers: Vec<i32> = vec![1, 3, 5];
    assert_eq!(true, odd_numbers.iter().all_or_none(|n| **n % 2 == 1));
    assert_eq!(true, odd_numbers.iter().exactly_n(1_usize, |n| **n == 3));
    assert_eq!(3, odd_numbers.len());
}
