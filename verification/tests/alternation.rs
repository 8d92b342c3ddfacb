use exotic_iter::Alternate;
use exotic_iter::ExoticIteratorExt;

#[test]
fn alternate_of_equal_lengths_yields_all_then_exhausts() {
    let odd_numbers: Vec<i32> = vec![1, 3];
    let even_numbers: Vec<i32> = vec![2, 4];
    let mut iter = odd_numbers.iter().alternate(even_numbers.iter());
    assert_eq!(Some(&1), iter.next());
    assert_eq!(Some(&2), iter.next());
    assert_eq!(Some(&3), iter.next());
    assert_eq!(Some(&4), iter.next());
    assert_eq!(None, iter.next());
}

#[test]
fn alternate_starts_with_the_first_source() {
    let first: Vec<char> = vec!['a'];
    let second: Vec<char> = vec!['x', 'y'];
    let merged: Vec<char> = first.into_iter().alternate(second.into_iter()).collect();
    assert_eq!(vec!['a', 'x'], merged);
}

#[test]
fn alternate_ends_on_the_turn_of_a_shorter_first_source() {
    let first: Vec<i32> = vec![1, 3];
    let second: Vec<i32> = vec![2, 4, 6, 8];
    let merged: Vec<i32> = first.into_iter().alternate(second.into_iter()).collect();
    assert_eq!(vec![1, 2, 3, 4], merged);
}

#[test]
fn alternate_ends_on_the_turn_of_a_shorter_second_source() {
    let first: Vec<i32> = vec![1, 3, 5, 7];
    let second: Vec<i32> = vec![2, 4];
    let merged: Vec<i32> = first.into_iter().alternate(second.into_iter()).collect();
    assert_eq!(vec![1, 2, 3, 4, 5], merged);
}

#[test]
fn alternate_with_an_empty_source() {
    let nothing: Vec<i32> = Vec::new();
    let some: Vec<i32> = vec![1, 2, 3];
    let merged: Vec<i32> = nothing.clone().into_iter().alternate(some.clone().into_iter()).collect();
    assert_eq!(Vec::<i32>::new(), merged);
    let merged: Vec<i32> = some.into_iter().alternate(nothing.clone().into_iter()).collect();
    assert_eq!(vec![1], merged);
    let merged: Vec<i32> = nothing.clone().into_iter().alternate(nothing.into_iter()).collect();
    assert_eq!(Vec::<i32>::new(), merged);
}

#[test]
fn alternate_length_is_twice_the_shorter_or_one_more() {
    let mut k: usize = 0;
    while k <= 4 {
        let mut j: usize = 0;
        while j <= 4 {
            let merged: Vec<usize> = (0..k).alternate(100..100 + j).collect();
            let expected: usize = if k <= j { 2 * k } else { 2 * j + 1 };
            assert_eq!(expected, merged.len());
            let mut i: usize = 0;
            while i < merged.len() {
                let item: usize = if i % 2 == 0 { i / 2 } else { 100 + i / 2 };
                assert_eq!(item, merged[i]);
                i += 1;
            }
            j += 1;
        }
        k += 1;
    }
}

#[test]
fn alternate_stays_exhausted_and_pulls_no_more() {
    let first: Vec<i32> = vec![1];
    let second: Vec<i32> = vec![2, 4, 6];
    let mut pulls_first: usize = 0;
    let mut pulls_second: usize = 0;
    let counted_first = first.into_iter().inspect(|_| pulls_first += 1);
    let counted_second = second.into_iter().inspect(|_| pulls_second += 1);
    let mut iter = Alternate::new(counted_first, counted_second);
    assert_eq!(Some(1), iter.next());
    assert_eq!(Some(2), iter.next());
    assert_eq!(None, iter.next());
    assert_eq!(None, iter.next());
    assert_eq!(None, iter.next());
    assert_eq!(None, iter.next());
    drop(iter);
    assert_eq!(1, pulls_first);
    assert_eq!(1, pulls_second);
}

#[test]
fn alternate_does_not_resume_a_source_that_yields_again() {
    // A source that yields after it has signalled exhaustion once.
    let mut calls: u32 = 0;
    let flaky = std::iter::from_fn(move || {
        calls += 1;
        if calls == 2 {
            None
        } else {
            Some(calls)
        }
    });
    let steady = std::iter::repeat(0_u32);
    let mut iter = flaky.alternate(steady);
    assert_eq!(Some(1), iter.next());
    assert_eq!(Some(0), iter.next());
    assert_eq!(None, iter.next());
    assert_eq!(None, iter.next());
    assert_eq!(None, iter.next());
}

#[test]
fn alternate_feeds_the_queries() {
    let first: Vec<i32> = vec![1, 3, 5];
    let second: Vec<i32> = vec![2, 4, 6];
    assert_eq!(
        true,
        first.clone().into_iter().alternate(second.clone().into_iter()).perfectly_balanced(|n| *n % 2 == 0)
    );
    assert_eq!(
        true,
        first.clone().into_iter().alternate(second.clone().into_iter()).exactly_n(3_usize, |n| *n > 3)
    );
    let thrice: Vec<i32> =
        first.into_iter().alternate(second.into_iter()).alternate(std::iter::repeat(0)).collect();
    assert_eq!(vec![1, 0, 2, 0, 3, 0, 4, 0, 5, 0, 6, 0], thrice);
}

#[test]
fn alternate_clone_goes_on_from_the_same_state() {
    let first: Vec<i32> = vec![1, 3];
    let second: Vec<i32> = vec![2, 4];
    let mut iter = first.into_iter().alternate(second.into_iter());
    assert_eq!(Some(1), iter.next());
    let copy = iter.clone();
    let rest: Vec<i32> = iter.collect();
    let rest_of_copy: Vec<i32> = copy.collect();
    assert_eq!(vec![2, 3, 4], rest);
    assert_eq!(rest, rest_of_copy);
}
