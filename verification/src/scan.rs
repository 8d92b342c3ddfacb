//! The pull loops. Each takes the iterator by mutable reference, so that its
//! contract can say, besides the verdict, how far the iterator was advanced.
//!
//! In every contract `items` is what the iterator had still to yield at the
//! call, and the verdict and the stopping place are stated for every predicate
//! `f` on items that the closure computes on `items`. Whatever the closure
//! does, the iterator is only ever advanced.

use vstd::prelude::*;
use vstd::std_specs::iter::IteratorSpec;
use crate::predicate::{callable_on, computes};
use crate::tally::{
    count_matches, has_at_least, has_at_most, has_exactly, has_exactly_m_n, is_all_or_none,
    is_perfectly_balanced, lemma_all_or_none_by_count, lemma_count_empty, lemma_count_negate,
    lemma_count_prefix, lemma_count_take_next, lemma_pulled_until_exhausts,
    lemma_pulled_until_least, lemma_pulled_until_reaches, lemma_pulled_until_within, negate,
    pulled_until, pulled_until_both, pulled_until_either,
};

verus! {

/// Every predicate on items that `p` computes finds `count` matches among the
/// first `total` items of `all`.
spec fn tallied<T, P: FnMut(&T) -> bool>(p: P, all: Seq<T>, total: int, count: nat) -> bool {
    forall|f: spec_fn(T) -> bool| #[trigger]
        computes(p, f, all) ==> count_matches(all.take(total), f) == count
}

/// Before the first pull nothing is tallied.
proof fn lemma_tallied_start<T, P: FnMut(&T) -> bool>(p: P, all: Seq<T>)
    ensures
        tallied(p, all, 0, 0),
{
    assert(all.take(0) =~= Seq::<T>::empty());
    assert forall|f: spec_fn(T) -> bool| #[trigger] computes(p, f, all) implies count_matches(
        all.take(0),
        f,
    ) == 0 by {
        lemma_count_empty(f);
    }
}

/// A call of `p` on the next item that returned `hit` moves the tally on by
/// one item, and by one match exactly if `hit`.
proof fn lemma_tallied_next<T, P: FnMut(&T) -> bool>(
    p: P,
    all: Seq<T>,
    total: int,
    count: nat,
    hit: bool,
)
    requires
        0 <= total < all.len(),
        tallied(p, all, total, count),
        call_ensures(p, (&all[total],), hit),
    ensures
        tallied(p, all, total + 1, if hit { count + 1 } else { count }),
{
    assert forall|f: spec_fn(T) -> bool| #[trigger] computes(p, f, all) implies count_matches(
        all.take(total + 1),
        f,
    ) == (if hit {
        count + 1
    } else {
        count
    }) by {
        lemma_count_take_next(all, f, total);
    }
}

/// Pulls items from `iter` until `predicate` has matched `n` of them, and
/// returns `true` right after the `n`-th match, without pulling again. Returns
/// `false` if the iterator is exhausted first. Pulls nothing for `n == 0`.
pub fn at_least<I, P>(iter: &mut I, n: usize, predicate: P) -> (verdict: bool) where
    I: Iterator,
    P: FnMut(&I::Item) -> bool,

    requires
        (*old(iter)).obeys_prophetic_iter_laws(),
        (*old(iter)).decrease() is Some,
        callable_on(predicate, (*old(iter)).remaining()),
    ensures
        (*final(iter)).obeys_prophetic_iter_laws(),
        (*final(iter)).decrease() is Some,
        (*final(iter)).remaining().is_suffix_of((*old(iter)).remaining()),
        ({
            let items = (*old(iter)).remaining();
            forall|f: spec_fn(I::Item) -> bool| #[trigger]
                computes(predicate, f, items) ==> {
                    &&& verdict == has_at_least(items, f, n as nat)
                    &&& (*final(iter)).remaining() == items.skip(
                        pulled_until(items, f, n as nat) as int,
                    )
                }
        }),
{
    let mut test = predicate;
    let mut count: usize = 0;
    let ghost all = (*iter).remaining();
    let ghost mut total: int = 0;
    proof {
        lemma_tallied_start(test, all);
        assert(all.skip(0) =~= all);
    }
    while count < n
        invariant
            (*iter).obeys_prophetic_iter_laws(),
            (*iter).decrease() is Some,
            all == (*old(iter)).remaining(),
            test == predicate,
            callable_on(test, all),
            0 <= total <= all.len(),
            (*iter).remaining() == all.skip(total),
            count <= n,
            tallied(test, all, total, count as nat),
            n == 0 ==> total == 0,
            count == n && n > 0 ==> total > 0 && tallied(
                test,
                all,
                total - 1,
                (count - 1) as nat,
            ),
        decreases (*iter).decrease()->0,
    {
        match iter.next() {
            None => {
                proof {
                    assert(all.take(total) =~= all);
                    assert forall|f: spec_fn(I::Item) -> bool| #[trigger]
                        computes(test, f, all) implies !has_at_least(all, f, n as nat)
                        && pulled_until(all, f, n as nat) == total by {
                        lemma_pulled_until_exhausts(all, f, n as nat);
                    }
                }
                return false;
            },
            Some(item) => {
                let hit = test(&item);
                proof {
                    lemma_tallied_next(test, all, total, count as nat, hit);
                    assert(all.skip(total).drop_first() =~= all.skip(total + 1));
                    total = total + 1;
                }
                if hit {
                    count += 1;
                }
            },
        }
    }
    proof {
        assert forall|f: spec_fn(I::Item) -> bool| #[trigger]
            computes(test, f, all) implies has_at_least(all, f, n as nat) && pulled_until(
            all,
            f,
            n as nat,
        ) == total by {
            if n > 0 {
                lemma_pulled_until_reaches(all, f, n as nat, total);
            }
        }
    }
    true
}

/// Pulls items from `iter` and tallies the matches of `predicate`. Stops with
/// `false` right after the match that takes the tally over `n`; otherwise runs
/// to exhaustion and returns `true`.
pub fn at_most<I, P>(iter: &mut I, n: usize, predicate: P) -> (verdict: bool) where
    I: Iterator,
    P: FnMut(&I::Item) -> bool,

    requires
        (*old(iter)).obeys_prophetic_iter_laws(),
        (*old(iter)).decrease() is Some,
        callable_on(predicate, (*old(iter)).remaining()),
    ensures
        (*final(iter)).obeys_prophetic_iter_laws(),
        (*final(iter)).decrease() is Some,
        (*final(iter)).remaining().is_suffix_of((*old(iter)).remaining()),
        ({
            let items = (*old(iter)).remaining();
            forall|f: spec_fn(I::Item) -> bool| #[trigger]
                computes(predicate, f, items) ==> {
                    &&& verdict == has_at_most(items, f, n as nat)
                    &&& (*final(iter)).remaining() == items.skip(
                        pulled_until(items, f, (n + 1) as nat) as int,
                    )
                }
        }),
{
    let mut test = predicate;
    let mut count: usize = 0;
    let ghost all = (*iter).remaining();
    let ghost mut total: int = 0;
    proof {
        lemma_tallied_start(test, all);
        assert(all.skip(0) =~= all);
    }
    loop
        invariant
            (*iter).obeys_prophetic_iter_laws(),
            (*iter).decrease() is Some,
            all == (*old(iter)).remaining(),
            test == predicate,
            callable_on(test, all),
            0 <= total <= all.len(),
            (*iter).remaining() == all.skip(total),
            count <= n,
            tallied(test, all, total, count as nat),
        decreases (*iter).decrease()->0,
    {
        match iter.next() {
            None => {
                proof {
                    assert(all.take(total) =~= all);
                    assert forall|f: spec_fn(I::Item) -> bool| #[trigger]
                        computes(test, f, all) implies pulled_until(all, f, (n + 1) as nat)
                        == total by {
                        lemma_pulled_until_exhausts(all, f, (n + 1) as nat);
                    }
                }
                return true;
            },
            Some(item) => {
                let hit = test(&item);
                proof {
                    lemma_tallied_next(test, all, total, count as nat, hit);
                    assert(all.skip(total).drop_first() =~= all.skip(total + 1));
                }
                if hit {
                    if count == n {
                        proof {
                            assert forall|f: spec_fn(I::Item) -> bool| #[trigger]
                                computes(test, f, all) implies !has_at_most(all, f, n as nat)
                                && pulled_until(all, f, (n + 1) as nat) == total + 1 by {
                                lemma_pulled_until_reaches(all, f, (n + 1) as nat, total + 1);
                            }
                        }
                        return false;
                    }
                    count += 1;
                }
                proof {
                    total = total + 1;
                }
            },
        }
    }
}

/// Pulls items from `iter` and tallies the matches of `predicate`. Stops with
/// `false` right after the match that takes the tally over `n`; otherwise runs
/// to exhaustion and tells whether the tally equals `n`.
pub fn exactly_n<I, P>(iter: &mut I, n: usize, predicate: P) -> (verdict: bool) where
    I: Iterator,
    P: FnMut(&I::Item) -> bool,

    requires
        (*old(iter)).obeys_prophetic_iter_laws(),
        (*old(iter)).decrease() is Some,
        callable_on(predicate, (*old(iter)).remaining()),
    ensures
        (*final(iter)).obeys_prophetic_iter_laws(),
        (*final(iter)).decrease() is Some,
        (*final(iter)).remaining().is_suffix_of((*old(iter)).remaining()),
        ({
            let items = (*old(iter)).remaining();
            forall|f: spec_fn(I::Item) -> bool| #[trigger]
                computes(predicate, f, items) ==> {
                    &&& verdict == has_exactly(items, f, n as nat)
                    &&& (*final(iter)).remaining() == items.skip(
                        pulled_until(items, f, (n + 1) as nat) as int,
                    )
                }
        }),
{
    let mut test = predicate;
    let mut count: usize = 0;
    let ghost all = (*iter).remaining();
    let ghost mut total: int = 0;
    proof {
        lemma_tallied_start(test, all);
        assert(all.skip(0) =~= all);
    }
    loop
        invariant
            (*iter).obeys_prophetic_iter_laws(),
            (*iter).decrease() is Some,
            all == (*old(iter)).remaining(),
            test == predicate,
            callable_on(test, all),
            0 <= total <= all.len(),
            (*iter).remaining() == all.skip(total),
            count <= n,
            tallied(test, all, total, count as nat),
        decreases (*iter).decrease()->0,
    {
        match iter.next() {
            None => {
                proof {
                    assert(all.take(total) =~= all);
                    assert forall|f: spec_fn(I::Item) -> bool| #[trigger]
                        computes(test, f, all) implies pulled_until(all, f, (n + 1) as nat)
                        == total by {
                        lemma_pulled_until_exhausts(all, f, (n + 1) as nat);
                    }
                }
                return count == n;
            },
            Some(item) => {
                let hit = test(&item);
                proof {
                    lemma_tallied_next(test, all, total, count as nat, hit);
                    assert(all.skip(total).drop_first() =~= all.skip(total + 1));
                }
                if hit {
                    if count == n {
                        proof {
                            assert forall|f: spec_fn(I::Item) -> bool| #[trigger]
                                computes(test, f, all) implies !has_exactly(all, f, n as nat)
                                && pulled_until(all, f, (n + 1) as nat) == total + 1 by {
                                lemma_pulled_until_reaches(all, f, (n + 1) as nat, total + 1);
                            }
                        }
                        return false;
                    }
                    count += 1;
                }
                proof {
                    total = total + 1;
                }
            },
        }
    }
}

/// Pulls items from `iter` and tallies the matches of `predicate_m` and of
/// `predicate_n`, both applied to every item pulled, in that order. Stops with
/// `false` right after the first item that takes one tally over its threshold;
/// otherwise runs to exhaustion and tells whether both tallies equal their
/// thresholds.
pub fn exactly_m_n<I, Pm, Pn>(
    iter: &mut I,
    m: usize,
    predicate_m: Pm,
    n: usize,
    predicate_n: Pn,
) -> (verdict: bool) where
    I: Iterator,
    Pm: FnMut(&I::Item) -> bool,
    Pn: FnMut(&I::Item) -> bool,

    requires
        (*old(iter)).obeys_prophetic_iter_laws(),
        (*old(iter)).decrease() is Some,
        callable_on(predicate_m, (*old(iter)).remaining()),
        callable_on(predicate_n, (*old(iter)).remaining()),
    ensures
        (*final(iter)).obeys_prophetic_iter_laws(),
        (*final(iter)).decrease() is Some,
        (*final(iter)).remaining().is_suffix_of((*old(iter)).remaining()),
        ({
            let items = (*old(iter)).remaining();
            forall|f_m: spec_fn(I::Item) -> bool, f_n: spec_fn(I::Item) -> bool|
                #![trigger computes(predicate_m, f_m, items), computes(predicate_n, f_n, items)]
                computes(predicate_m, f_m, items) && computes(predicate_n, f_n, items) ==> {
                    &&& verdict == has_exactly_m_n(items, f_m, m as nat, f_n, n as nat)
                    &&& (*final(iter)).remaining() == items.skip(
                        pulled_until_either(items, f_m, (m + 1) as nat, f_n, (n + 1) as nat) as int,
                    )
                }
        }),
{
    let mut test_m = predicate_m;
    let mut test_n = predicate_n;
    let mut count_m: usize = 0;
    let mut count_n: usize = 0;
    let ghost all = (*iter).remaining();
    let ghost mut total: int = 0;
    proof {
        lemma_tallied_start(test_m, all);
        lemma_tallied_start(test_n, all);
        assert(all.skip(0) =~= all);
    }
    loop
        invariant
            (*iter).obeys_prophetic_iter_laws(),
            (*iter).decrease() is Some,
            all == (*old(iter)).remaining(),
            test_m == predicate_m,
            test_n == predicate_n,
            callable_on(test_m, all),
            callable_on(test_n, all),
            0 <= total <= all.len(),
            (*iter).remaining() == all.skip(total),
            count_m <= m,
            count_n <= n,
            tallied(test_m, all, total, count_m as nat),
            tallied(test_n, all, total, count_n as nat),
        decreases (*iter).decrease()->0,
    {
        match iter.next() {
            None => {
                proof {
                    assert(all.take(total) =~= all);
                    assert forall|f_m: spec_fn(I::Item) -> bool, f_n: spec_fn(I::Item) -> bool|
                        #![trigger computes(test_m, f_m, all), computes(test_n, f_n, all)]
                        computes(test_m, f_m, all) && computes(
                            test_n,
                            f_n,
                            all,
                        ) implies pulled_until_either(
                        all,
                        f_m,
                        (m + 1) as nat,
                        f_n,
                        (n + 1) as nat,
                    ) == total by {
                        lemma_pulled_until_exhausts(all, f_m, (m + 1) as nat);
                        lemma_pulled_until_exhausts(all, f_n, (n + 1) as nat);
                    }
                }
                return count_m == m && count_n == n;
            },
            Some(item) => {
                let hit_m = test_m(&item);
                let hit_n = test_n(&item);
                proof {
                    lemma_tallied_next(test_m, all, total, count_m as nat, hit_m);
                    lemma_tallied_next(test_n, all, total, count_n as nat, hit_n);
                    assert(all.skip(total).drop_first() =~= all.skip(total + 1));
                }
                if (hit_m && count_m == m) || (hit_n && count_n == n) {
                    proof {
                        assert forall|
                            f_m: spec_fn(I::Item) -> bool,
                            f_n: spec_fn(I::Item) -> bool,
                        |
                            #![trigger computes(test_m, f_m, all), computes(test_n, f_n, all)]
                            computes(test_m, f_m, all) && computes(
                                test_n,
                                f_n,
                                all,
                            ) implies !has_exactly_m_n(all, f_m, m as nat, f_n, n as nat)
                            && pulled_until_either(all, f_m, (m + 1) as nat, f_n, (n + 1) as nat)
                            == total + 1 by {
                            lemma_pulled_until_reaches(all, f_m, (m + 1) as nat, total + 1);
                            lemma_pulled_until_reaches(all, f_n, (n + 1) as nat, total + 1);
                        }
                    }
                    return false;
                }
                if hit_m {
                    count_m += 1;
                }
                if hit_n {
                    count_n += 1;
                }
                proof {
                    total = total + 1;
                }
            },
        }
    }
}

/// Pulls items from `iter` and notes whether `predicate` has passed an item and
/// whether it has failed one. Stops with `false` right after the first item
/// that leaves both noted; otherwise runs to exhaustion and returns `true`.
pub fn all_or_none<I, P>(iter: &mut I, predicate: P) -> (verdict: bool) where
    I: Iterator,
    P: FnMut(&I::Item) -> bool,

    requires
        (*old(iter)).obeys_prophetic_iter_laws(),
        (*old(iter)).decrease() is Some,
        callable_on(predicate, (*old(iter)).remaining()),
    ensures
        (*final(iter)).obeys_prophetic_iter_laws(),
        (*final(iter)).decrease() is Some,
        (*final(iter)).remaining().is_suffix_of((*old(iter)).remaining()),
        ({
            let items = (*old(iter)).remaining();
            forall|f: spec_fn(I::Item) -> bool| #[trigger]
                computes(predicate, f, items) ==> {
                    &&& verdict == is_all_or_none(items, f)
                    &&& (*final(iter)).remaining() == items.skip(
                        pulled_until_both(items, f, 1, negate(f), 1) as int,
                    )
                }
        }),
{
    let mut test = predicate;
    let mut has_pass = false;
    let mut has_fail = false;
    let ghost all = (*iter).remaining();
    let ghost mut total: int = 0;
    let ghost mut passes: nat = 0;
    proof {
        lemma_tallied_start(test, all);
        assert(all.skip(0) =~= all);
    }
    loop
        invariant
            (*iter).obeys_prophetic_iter_laws(),
            (*iter).decrease() is Some,
            all == (*old(iter)).remaining(),
            test == predicate,
            callable_on(test, all),
            0 <= total <= all.len(),
            (*iter).remaining() == all.skip(total),
            tallied(test, all, total, passes),
            has_pass == (passes > 0),
            has_fail == (passes < total),
            !(has_pass && has_fail),
        decreases (*iter).decrease()->0,
    {
        match iter.next() {
            None => {
                proof {
                    assert(all.take(total) =~= all);
                    assert forall|f: spec_fn(I::Item) -> bool| #[trigger]
                        computes(test, f, all) implies is_all_or_none(all, f) && pulled_until_both(
                        all,
                        f,
                        1,
                        negate(f),
                        1,
                    ) == total by {
                        lemma_all_or_none_by_count(all, f);
                        lemma_count_negate(all, f);
                        lemma_pulled_until_least(all, f, 1);
                        lemma_pulled_until_least(all, negate(f), 1);
                    }
                }
                return true;
            },
            Some(item) => {
                let hit = test(&item);
                if hit {
                    has_pass = true;
                } else {
                    has_fail = true;
                }
                proof {
                    lemma_tallied_next(test, all, total, passes, hit);
                    assert(all.skip(total).drop_first() =~= all.skip(total + 1));
                }
                if has_pass && has_fail {
                    proof {
                        assert forall|f: spec_fn(I::Item) -> bool| #[trigger]
                            computes(test, f, all) implies !is_all_or_none(all, f)
                            && pulled_until_both(all, f, 1, negate(f), 1) == total + 1 by {
                            lemma_all_or_none_by_count(all, f);
                            lemma_count_negate(all, f);
                            lemma_count_negate(all.take(total), f);
                            lemma_count_negate(all.take(total + 1), f);
                            if hit {
                                lemma_pulled_until_reaches(all, f, 1, total + 1);
                                lemma_pulled_until_within(all, negate(f), 1, total);
                                lemma_count_prefix(all, negate(f), total);
                            } else {
                                lemma_pulled_until_reaches(all, negate(f), 1, total + 1);
                                lemma_pulled_until_within(all, f, 1, total);
                                lemma_count_prefix(all, f, total);
                            }
                        }
                    }
                    return false;
                }
                proof {
                    total = total + 1;
                    if hit {
                        passes = passes + 1;
                    }
                }
            },
        }
    }
}

/// Pulls every item from `iter`, counting the items and the matches of
/// `predicate`, and tells whether the number of items is even and half of them
/// matched. The items are counted in a `usize`.
pub fn perfectly_balanced<I, P>(iter: &mut I, predicate: P) -> (verdict: bool) where
    I: Iterator,
    P: FnMut(&I::Item) -> bool,

    requires
        (*old(iter)).obeys_prophetic_iter_laws(),
        (*old(iter)).decrease() is Some,
        (*old(iter)).remaining().len() <= usize::MAX,
        callable_on(predicate, (*old(iter)).remaining()),
    ensures
        (*final(iter)).obeys_prophetic_iter_laws(),
        (*final(iter)).decrease() is Some,
        (*final(iter)).remaining().len() == 0,
        ({
            let items = (*old(iter)).remaining();
            forall|f: spec_fn(I::Item) -> bool| #[trigger]
                computes(predicate, f, items) ==> verdict == is_perfectly_balanced(items, f)
        }),
{
    let mut test = predicate;
    let mut count: usize = 0;
    let mut total: usize = 0;
    let ghost all = (*iter).remaining();
    proof {
        lemma_tallied_start(test, all);
        assert(all.skip(0) =~= all);
    }
    loop
        invariant
            (*iter).obeys_prophetic_iter_laws(),
            (*iter).decrease() is Some,
            all == (*old(iter)).remaining(),
            all.len() <= usize::MAX,
            test == predicate,
            callable_on(test, all),
            0 <= total <= all.len(),
            (*iter).remaining() == all.skip(total as int),
            count <= total,
            tallied(test, all, total as int, count as nat),
        decreases (*iter).decrease()->0,
    {
        match iter.next() {
            None => {
                proof {
                    assert(all.take(total as int) =~= all);
                }
                return total % 2 == 0 && total / 2 == count;
            },
            Some(item) => {
                let hit = test(&item);
                proof {
                    lemma_tallied_next(test, all, total as int, count as nat, hit);
                    assert(all.skip(total as int).drop_first() =~= all.skip(total + 1));
                }
                total += 1;
                if hit {
                    count += 1;
                }
            },
        }
    }
}

} // verus!
