//! Predicate-counting queries on iterators, and the alternating merge of two
//! iterators.
//!
//! The contracts speak of an iterator through the sequence of items that it
//! will still yield, and of an executable predicate through any mathematical
//! predicate that it computes on those items. They cover iterators that obey
//! the iterator laws of `vstd` and come with a termination measure, which
//! makes them finite; at run time the queries that can stop early also answer
//! on an unbounded iterator.

use vstd::prelude::*;
use vstd::std_specs::iter::IteratorSpec;

pub mod alternate;
pub mod predicate;
pub mod scan;
pub mod tally;

pub use crate::alternate::Alternate;
use crate::predicate::{callable_on, computes};
use crate::tally::{
    has_at_least, has_at_most, has_exactly, has_exactly_m_n, is_all_or_none,
    is_perfectly_balanced,
};

verus! {

/// Provides additional convenience methods to the `Iterator` trait and its implementors.
///
/// Each query consumes the iterator and calls its predicate once on every item
/// that it pulls, in the order of the items. What a query decides is stated
/// for every predicate `f` on items that the given closure computes on the
/// items to come. How far it pulls before it answers is stated by the function
/// of the same name in [`scan`], which does the work on a borrowed iterator.
pub trait ExoticIteratorExt: Iterator + Sized {
    /// Consumes the iterator, counting the number of items that pass the
    /// predicate, and returns true iff there were at least `n` passing items.
    /// Stops at the `n`-th of them.
    ///
    /// # Example
    /// ```rust
    /// use exotic_iter::ExoticIteratorExt;
    /// let very_few_twos = vec![1, 2, 3, 4, 5, 6];
    /// let lots_of_twos = vec![2, 3, 2, 4, 2, 5];
    /// assert_eq!(false, very_few_twos.into_iter().at_least(3_usize, |n| *n == 2));
    /// assert_eq!(true, lots_of_twos.into_iter().at_least(3_usize, |n| *n == 2));
    /// ```
    fn at_least<P: FnMut(&Self::Item) -> bool>(self, n: usize, predicate: P) -> (verdict: bool)
        requires
            self.obeys_prophetic_iter_laws(),
            self.decrease() is Some,
            callable_on(predicate, self.remaining()),
        ensures
            forall|f: spec_fn(Self::Item) -> bool| #[trigger]
                computes(predicate, f, self.remaining()) ==> verdict == has_at_least(
                    self.remaining(),
                    f,
                    n as nat,
                ),
    ;

    /// Consumes the iterator, counting the number of items that pass the
    /// predicate, and returns true iff there were no more than `n` passing
    /// items. Stops at the first passing item beyond the `n`-th.
    ///
    /// # Example
    /// ```rust
    /// use exotic_iter::ExoticIteratorExt;
    /// let just_enough_twos = vec![1, 1, 2, 2, 3, 3];
    /// let too_many_twos = vec![2, 2, 2, 2, 2, 2];
    /// assert_eq!(true, just_enough_twos.into_iter().at_most(2_usize, |n| *n == 2));
    /// assert_eq!(false, too_many_twos.into_iter().at_most(2_usize, |n| *n == 2));
    /// ```
    fn at_most<P: FnMut(&Self::Item) -> bool>(self, n: usize, predicate: P) -> (verdict: bool)
        requires
            self.obeys_prophetic_iter_laws(),
            self.decrease() is Some,
            callable_on(predicate, self.remaining()),
        ensures
            forall|f: spec_fn(Self::Item) -> bool| #[trigger]
                computes(predicate, f, self.remaining()) ==> verdict == has_at_most(
                    self.remaining(),
                    f,
                    n as nat,
                ),
    ;

    /// Consumes the iterator, counting the number of items that pass the
    /// predicate, and returns true iff there were exactly `n` passing items.
    /// Stops at the first passing item beyond the `n`-th.
    ///
    /// # Example
    /// ```rust
    /// use exotic_iter::ExoticIteratorExt;
    /// let no_digits = "deadbeef";
    /// let two_digits = "deadb33f";
    /// let three_digits = "d3adb33f";
    /// assert_eq!(false, no_digits.chars().exactly_n(2_usize, |c| c.is_ascii_digit()));
    /// assert_eq!(true, two_digits.chars().exactly_n(2_usize, |c| c.is_ascii_digit()));
    /// assert_eq!(false, three_digits.chars().exactly_n(2_usize, |c| c.is_ascii_digit()));
    /// ```
    fn exactly_n<P: FnMut(&Self::Item) -> bool>(self, n: usize, predicate: P) -> (verdict: bool)
        requires
            self.obeys_prophetic_iter_laws(),
            self.decrease() is Some,
            callable_on(predicate, self.remaining()),
        ensures
            forall|f: spec_fn(Self::Item) -> bool| #[trigger]
                computes(predicate, f, self.remaining()) ==> verdict == has_exactly(
                    self.remaining(),
                    f,
                    n as nat,
                ),
    ;

    /// Consumes the iterator, counting the number of items that pass each
    /// predicate, and returns true iff there were exactly `m` passing items
    /// for `predicate_m` and exactly `n` passing items for `predicate_n`.
    /// Applies both predicates to every item that it pulls, `predicate_m`
    /// first, and stops at the first item that takes either count over its
    /// threshold.
    ///
    /// # Example
    /// ```rust
    /// use exotic_iter::ExoticIteratorExt;
    /// let more_digits = "abc12345";
    /// let balanced_digits = "abcd1234";
    /// assert_eq!(false, more_digits.chars().exactly_m_n(4_usize, |c| c.is_ascii_alphabetic(), 4_usize, |c| c.is_ascii_digit()));
    /// assert_eq!(true, balanced_digits.chars().exactly_m_n(4_usize, |c| c.is_ascii_alphabetic(), 4_usize, |c| c.is_ascii_digit()));
    /// ```
    fn exactly_m_n<Pm: FnMut(&Self::Item) -> bool, Pn: FnMut(&Self::Item) -> bool>(
        self,
        m: usize,
        predicate_m: Pm,
        n: usize,
        predicate_n: Pn,
    ) -> (verdict: bool)
        requires
            self.obeys_prophetic_iter_laws(),
            self.decrease() is Some,
            callable_on(predicate_m, self.remaining()),
            callable_on(predicate_n, self.remaining()),
        ensures
            forall|f_m: spec_fn(Self::Item) -> bool, f_n: spec_fn(Self::Item) -> bool|
                #![trigger computes(predicate_m, f_m, self.remaining()), computes(predicate_n, f_n, self.remaining())]
                computes(predicate_m, f_m, self.remaining()) && computes(
                    predicate_n,
                    f_n,
                    self.remaining(),
                ) ==> verdict == has_exactly_m_n(self.remaining(), f_m, m as nat, f_n, n as nat),
    ;

    /// Consumes the iterator and returns true iff either all of the items
    /// passed the predicate, or none of them passed. Returns early on the
    /// first mixed result.
    ///
    /// # Example
    /// ```rust
    /// use exotic_iter::ExoticIteratorExt;
    /// let all_true = vec![true, true, true];
    /// let some_true = vec![true, false, true];
    /// let none_true = vec![false, false, false];
    /// assert_eq!(true, all_true.into_iter().all_or_none(|b| *b));
    /// assert_eq!(false, some_true.into_iter().all_or_none(|b| *b));
    /// assert_eq!(true, none_true.into_iter().all_or_none(|b| *b));
    /// ```
    fn all_or_none<P: FnMut(&Self::Item) -> bool>(self, predicate: P) -> (verdict: bool)
        requires
            self.obeys_prophetic_iter_laws(),
            self.decrease() is Some,
            callable_on(predicate, self.remaining()),
        ensures
            forall|f: spec_fn(Self::Item) -> bool| #[trigger]
                computes(predicate, f, self.remaining()) ==> verdict == is_all_or_none(
                    self.remaining(),
                    f,
                ),
    ;

    /// Consumes the iterator and returns true iff it had an even number of
    /// items and exactly half of them passed the predicate; as all things
    /// should be. Pulls every item, and counts the items in a `usize`.
    ///
    /// # Example
    /// ```rust
    /// use exotic_iter::ExoticIteratorExt;
    /// let two_even = vec![1, 2, 3, 4];
    /// let three_even = vec![1, 2, 4, 6];
    /// assert_eq!(true, two_even.into_iter().perfectly_balanced(|n| *n % 2 == 0));
    /// assert_eq!(false, three_even.into_iter().perfectly_balanced(|n| *n % 2 == 0));
    /// ```
    fn perfectly_balanced<P: FnMut(&Self::Item) -> bool>(self, predicate: P) -> (verdict: bool)
        requires
            self.obeys_prophetic_iter_laws(),
            self.decrease() is Some,
            self.remaining().len() <= usize::MAX,
            callable_on(predicate, self.remaining()),
        ensures
            forall|f: spec_fn(Self::Item) -> bool| #[trigger]
                computes(predicate, f, self.remaining()) ==> verdict == is_perfectly_balanced(
                    self.remaining(),
                    f,
                ),
    ;

    /// Creates an iterator that alternates between items from `self` and
    /// `other`, with `self` providing the first value. Short-circuits at the
    /// first `None` returned, even if one of the iterators still has values
    /// left. `other` is taken as an iterator, so that the contract can name
    /// it: of a collection, pass its `into_iter()`.
    ///
    /// # Example
    /// ```rust
    /// use exotic_iter::ExoticIteratorExt;
    /// let odd_numbers = vec![1, 3];
    /// let even_numbers = vec![2, 4];
    /// let mut iter = odd_numbers.iter().alternate(even_numbers.iter());
    /// assert_eq!(Some(&1), iter.next());
    /// assert_eq!(Some(&2), iter.next());
    /// assert_eq!(Some(&3), iter.next());
    /// assert_eq!(Some(&4), iter.next());
    /// assert_eq!(None, iter.next());
    /// ```
    fn alternate<U: Iterator<Item = Self::Item>>(self, other: U) -> (merged: Alternate<Self, U>)
        ensures
            merged.first() == self,
            merged.second() == other,
            !merged.second_is_next(),
            !merged.finished(),
    ;
}

impl<T: Iterator> ExoticIteratorExt for T {
    #[inline]
    fn at_least<P: FnMut(&Self::Item) -> bool>(self, n: usize, predicate: P) -> (verdict: bool) {
        let mut iter = self;
        scan::at_least(&mut iter, n, predicate)
    }

    #[inline]
    fn at_most<P: FnMut(&Self::Item) -> bool>(self, n: usize, predicate: P) -> (verdict: bool) {
        let mut iter = self;
        scan::at_most(&mut iter, n, predicate)
    }

    fn exactly_n<P: FnMut(&Self::Item) -> bool>(self, n: usize, predicate: P) -> (verdict: bool) {
        let mut iter = self;
        scan::exactly_n(&mut iter, n, predicate)
    }

    fn exactly_m_n<Pm: FnMut(&Self::Item) -> bool, Pn: FnMut(&Self::Item) -> bool>(
        self,
        m: usize,
        predicate_m: Pm,
        n: usize,
        predicate_n: Pn,
    ) -> (verdict: bool) {
        let mut iter = self;
        scan::exactly_m_n(&mut iter, m, predicate_m, n, predicate_n)
    }

    fn all_or_none<P: FnMut(&Self::Item) -> bool>(self, predicate: P) -> (verdict: bool) {
        let mut iter = self;
        scan::all_or_none(&mut iter, predicate)
    }

    fn perfectly_balanced<P: FnMut(&Self::Item) -> bool>(self, predicate: P) -> (verdict: bool) {
        let mut iter = self;
        scan::perfectly_balanced(&mut iter, predicate)
    }

    fn alternate<U: Iterator<Item = Self::Item>>(self, other: U) -> (merged: Alternate<Self, U>) {
        Alternate::new(self, other)
    }
}

} // verus!
