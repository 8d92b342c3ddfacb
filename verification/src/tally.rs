//! What the combinators decide, as functions of a finite sequence of items and a
//! predicate on items, and the facts about those functions that the pull loops
//! rest on.

use vstd::prelude::*;

verus! {

/// The number of items of `s` that satisfy `f`.
pub open spec fn count_matches<T>(s: Seq<T>, f: spec_fn(T) -> bool) -> nat {
    s.filter(f).len()
}

/// The predicate that holds exactly where `f` does not.
pub open spec fn negate<T>(f: spec_fn(T) -> bool) -> spec_fn(T) -> bool {
    |x: T| !f(x)
}

/// At least `n` items of `s` satisfy `f`.
pub open spec fn has_at_least<T>(s: Seq<T>, f: spec_fn(T) -> bool, n: nat) -> bool {
    count_matches(s, f) >= n
}

/// At most `n` items of `s` satisfy `f`.
pub open spec fn has_at_most<T>(s: Seq<T>, f: spec_fn(T) -> bool, n: nat) -> bool {
    count_matches(s, f) <= n
}

/// Exactly `n` items of `s` satisfy `f`.
pub open spec fn has_exactly<T>(s: Seq<T>, f: spec_fn(T) -> bool, n: nat) -> bool {
    count_matches(s, f) == n
}

/// Exactly `m` items of `s` satisfy `f_m` and exactly `n` satisfy `f_n`.
pub open spec fn has_exactly_m_n<T>(
    s: Seq<T>,
    f_m: spec_fn(T) -> bool,
    m: nat,
    f_n: spec_fn(T) -> bool,
    n: nat,
) -> bool {
    count_matches(s, f_m) == m && count_matches(s, f_n) == n
}

/// Every item of `s` satisfies `f`, or none does.
pub open spec fn is_all_or_none<T>(s: Seq<T>, f: spec_fn(T) -> bool) -> bool {
    ||| forall|i: int| 0 <= i < s.len() ==> f(#[trigger] s[i])
    ||| forall|i: int| 0 <= i < s.len() ==> !f(#[trigger] s[i])
}

/// `s` has an even number of items and exactly half of them satisfy `f`.
pub open spec fn is_perfectly_balanced<T>(s: Seq<T>, f: spec_fn(T) -> bool) -> bool {
    s.len() % 2 == 0 && count_matches(s, f) == s.len() / 2
}

/// How many items of `s` a scan pulls if it goes item by item from the front and
/// stops right after the `n`-th match: none for `n == 0`, and all of `s` if `s`
/// has fewer than `n` matches.
pub open spec fn pulled_until<T>(s: Seq<T>, f: spec_fn(T) -> bool, n: nat) -> nat
    decreases s.len(),
{
    if n == 0 || s.len() == 0 {
        0
    } else if f(s.first()) {
        1 + pulled_until(s.drop_first(), f, (n - 1) as nat)
    } else {
        1 + pulled_until(s.drop_first(), f, n)
    }
}

/// How many items of `s` a scan pulls if it stops as soon as it has seen `m`
/// matches of `f` or `n` matches of `g`, whichever comes first.
pub open spec fn pulled_until_either<T>(
    s: Seq<T>,
    f: spec_fn(T) -> bool,
    m: nat,
    g: spec_fn(T) -> bool,
    n: nat,
) -> nat {
    if pulled_until(s, f, m) <= pulled_until(s, g, n) {
        pulled_until(s, f, m)
    } else {
        pulled_until(s, g, n)
    }
}

/// How many items of `s` a scan pulls if it stops as soon as it has seen both
/// `m` matches of `f` and `n` matches of `g`.
pub open spec fn pulled_until_both<T>(
    s: Seq<T>,
    f: spec_fn(T) -> bool,
    m: nat,
    g: spec_fn(T) -> bool,
    n: nat,
) -> nat {
    if pulled_until(s, f, m) >= pulled_until(s, g, n) {
        pulled_until(s, f, m)
    } else {
        pulled_until(s, g, n)
    }
}

/// An empty sequence has no matches.
pub proof fn lemma_count_empty<T>(f: spec_fn(T) -> bool)
    ensures
        count_matches(Seq::<T>::empty(), f) == 0,
{
    reveal(Seq::filter);
}

/// Appending one item adds one to the count exactly if the item matches.
pub proof fn lemma_count_push<T>(s: Seq<T>, f: spec_fn(T) -> bool, x: T)
    ensures
        count_matches(s.push(x), f) == count_matches(s, f) + if f(x) { 1nat } else { 0nat },
{
    reveal(Seq::filter);
    assert(s.push(x).drop_last() =~= s);
}

/// The count of a sequence is the sum of the counts of a prefix and of the rest.
pub proof fn lemma_count_split<T>(s: Seq<T>, f: spec_fn(T) -> bool, k: int)
    requires
        0 <= k <= s.len(),
    ensures
        count_matches(s, f) == count_matches(s.take(k), f) + count_matches(s.skip(k), f),
{
    assert(s =~= s.take(k) + s.skip(k));
    Seq::filter_distributes_over_add(s.take(k), s.skip(k), f);
}

/// Extending a prefix by one item adds one to its count exactly if that item matches.
pub proof fn lemma_count_take_next<T>(s: Seq<T>, f: spec_fn(T) -> bool, k: int)
    requires
        0 <= k < s.len(),
    ensures
        count_matches(s.take(k + 1), f) == count_matches(s.take(k), f) + if f(s[k]) {
            1nat
        } else {
            0nat
        },
{
    assert(s.take(k + 1) =~= s.take(k).push(s[k]));
    lemma_count_push(s.take(k), f, s[k]);
}

/// The count of a sequence that is not empty is the count of its tail, plus one
/// exactly if its first item matches.
pub proof fn lemma_count_first<T>(s: Seq<T>, f: spec_fn(T) -> bool)
    requires
        s.len() > 0,
    ensures
        count_matches(s, f) == count_matches(s.drop_first(), f) + if f(s.first()) {
            1nat
        } else {
            0nat
        },
{
    lemma_count_split(s, f, 1);
    assert(s.skip(1) =~= s.drop_first());
    assert(s.take(1) =~= Seq::<T>::empty().push(s.first()));
    lemma_count_empty(f);
    lemma_count_push(Seq::<T>::empty(), f, s.first());
}

/// Each item either matches `f` or matches its negation.
pub proof fn lemma_count_negate<T>(s: Seq<T>, f: spec_fn(T) -> bool)
    ensures
        count_matches(s, f) + count_matches(s, negate(f)) == s.len(),
    decreases s.len(),
{
    if s.len() == 0 {
        assert(s =~= Seq::<T>::empty());
        lemma_count_empty(f);
        lemma_count_empty(negate(f));
    } else {
        lemma_count_negate(s.drop_first(), f);
        lemma_count_first(s, f);
        lemma_count_first(s, negate(f));
    }
}

/// No item matches exactly if the count is zero.
pub proof fn lemma_count_zero<T>(s: Seq<T>, f: spec_fn(T) -> bool)
    ensures
        count_matches(s, f) == 0 <==> forall|i: int| 0 <= i < s.len() ==> !f(#[trigger] s[i]),
    decreases s.len(),
{
    if s.len() == 0 {
        assert(s =~= Seq::<T>::empty());
        lemma_count_empty(f);
    } else {
        let t = s.drop_first();
        lemma_count_zero(t, f);
        lemma_count_first(s, f);
        if count_matches(s, f) == 0 {
            assert forall|i: int| 0 <= i < s.len() implies !f(#[trigger] s[i]) by {
                if i > 0 {
                    assert(s[i] == t[i - 1]);
                }
            }
        }
        if forall|i: int| 0 <= i < s.len() ==> !f(#[trigger] s[i]) {
            assert forall|i: int| 0 <= i < t.len() implies !f(#[trigger] t[i]) by {
                assert(t[i] == s[i + 1]);
            }
            assert(!f(s[0]));
        }
    }
}

/// Every item matches exactly if the count is the length.
pub proof fn lemma_count_all<T>(s: Seq<T>, f: spec_fn(T) -> bool)
    ensures
        count_matches(s, f) == s.len() <==> forall|i: int| 0 <= i < s.len() ==> f(#[trigger] s[i]),
{
    lemma_count_negate(s, f);
    lemma_count_zero(s, negate(f));
}

/// A longer prefix has at least as many matches as a shorter one.
pub proof fn lemma_count_prefix_monotonic<T>(s: Seq<T>, f: spec_fn(T) -> bool, j: int, k: int)
    requires
        0 <= j <= k <= s.len(),
    ensures
        count_matches(s.take(j), f) <= count_matches(s.take(k), f),
{
    lemma_count_split(s.take(k), f, j);
    assert(s.take(k).take(j) =~= s.take(j));
}

/// A prefix has at most as many matches as the whole.
pub proof fn lemma_count_prefix<T>(s: Seq<T>, f: spec_fn(T) -> bool, k: int)
    requires
        0 <= k <= s.len(),
    ensures
        count_matches(s.take(k), f) <= count_matches(s, f),
{
    lemma_count_split(s, f, k);
}

/// `pulled_until` is the least number of leading items that hold `n` matches, and
/// the whole length where no prefix holds that many: a `k` that is such a number
/// is the value of `pulled_until`.
pub proof fn lemma_pulled_until_is<T>(s: Seq<T>, f: spec_fn(T) -> bool, n: nat, k: int)
    requires
        0 <= k <= s.len(),
        k == s.len() || count_matches(s.take(k), f) >= n,
        k > 0 ==> count_matches(s.take(k - 1), f) < n,
    ensures
        pulled_until(s, f, n) == k,
    decreases s.len(),
{
    if n == 0 || s.len() == 0 {
        if k > 0 {
            assert(s.take(0) =~= Seq::<T>::empty());
            lemma_count_empty(f);
            lemma_count_prefix_monotonic(s, f, 0, k - 1);
        }
    } else {
        let t = s.drop_first();
        let rest: nat = if f(s.first()) {
            (n - 1) as nat
        } else {
            n
        };
        if k == 0 {
            assert(s.take(0) =~= Seq::<T>::empty());
            lemma_count_empty(f);
        } else {
            lemma_count_first(s.take(k), f);
            assert(s.take(k).drop_first() =~= t.take(k - 1));
            if k - 1 > 0 {
                lemma_count_first(s.take(k - 1), f);
                assert(s.take(k - 1).drop_first() =~= t.take(k - 2));
            }
            lemma_pulled_until_is(t, f, rest, k - 1);
        }
    }
}

/// What `pulled_until` gives: a prefix that holds `n` matches where `s` has that
/// many, all of `s` where it has fewer, and in both cases no shorter prefix
/// holds `n` matches.
pub proof fn lemma_pulled_until_least<T>(s: Seq<T>, f: spec_fn(T) -> bool, n: nat)
    ensures
        pulled_until(s, f, n) <= s.len(),
        count_matches(s, f) >= n ==> count_matches(s.take(pulled_until(s, f, n) as int), f) == n,
        count_matches(s, f) < n ==> pulled_until(s, f, n) == s.len(),
        forall|j: int|
            0 <= j < pulled_until(s, f, n) ==> count_matches(#[trigger] s.take(j), f) < n,
    decreases s.len(),
{
    let k = pulled_until(s, f, n) as int;
    if n == 0 || s.len() == 0 {
        assert(s.take(0) =~= Seq::<T>::empty());
        lemma_count_empty(f);
        if s.len() == 0 {
            assert(s =~= Seq::<T>::empty());
        }
    } else {
        let t = s.drop_first();
        let rest: nat = if f(s.first()) {
            (n - 1) as nat
        } else {
            n
        };
        lemma_pulled_until_least(t, f, rest);
        lemma_count_first(s, f);
        lemma_count_first(s.take(k), f);
        assert(s.take(k).drop_first() =~= t.take(k - 1));
        assert forall|j: int| 0 <= j < k implies count_matches(#[trigger] s.take(j), f) < n by {
            if j == 0 {
                assert(s.take(0) =~= Seq::<T>::empty());
                lemma_count_empty(f);
            } else {
                lemma_count_first(s.take(j), f);
                assert(s.take(j).drop_first() =~= t.take(j - 1));
            }
        }
    }
}

/// A sequence is all-or-none exactly if its count is zero or its length.
pub proof fn lemma_all_or_none_by_count<T>(s: Seq<T>, f: spec_fn(T) -> bool)
    ensures
        is_all_or_none(s, f) <==> count_matches(s, f) == 0 || count_matches(s, f) == s.len(),
{
    lemma_count_zero(s, f);
    lemma_count_all(s, f);
}

/// A scan that waits for `n` matches and finds fewer pulls every item.
pub proof fn lemma_pulled_until_exhausts<T>(s: Seq<T>, f: spec_fn(T) -> bool, n: nat)
    requires
        count_matches(s, f) < n,
    ensures
        pulled_until(s, f, n) == s.len(),
{
    lemma_pulled_until_least(s, f, n);
}

/// A scan that waits for `n` matches pulls no more than a prefix that holds them.
pub proof fn lemma_pulled_until_within<T>(s: Seq<T>, f: spec_fn(T) -> bool, n: nat, k: int)
    requires
        0 <= k <= s.len(),
        count_matches(s.take(k), f) >= n,
    ensures
        pulled_until(s, f, n) <= k,
{
    lemma_pulled_until_least(s, f, n);
}

/// A scan that waits for `n` matches pulls at least `k` items where the
/// prefix one item shorter than `k` holds fewer than `n`; it pulls exactly `k`
/// where, besides, the prefix of `k` items holds `n`, and the sequence then has
/// at least `n` matches.
pub proof fn lemma_pulled_until_reaches<T>(s: Seq<T>, f: spec_fn(T) -> bool, n: nat, k: int)
    requires
        0 < k <= s.len(),
        count_matches(s.take(k - 1), f) < n,
    ensures
        pulled_until(s, f, n) >= k,
        count_matches(s.take(k), f) >= n ==> pulled_until(s, f, n) == k && count_matches(s, f)
            >= n,
{
    lemma_pulled_until_least(s, f, n);
    lemma_count_prefix(s, f, k);
    if count_matches(s.take(k), f) >= n {
        lemma_pulled_until_is(s, f, n, k);
    } else {
        let p = pulled_until(s, f, n) as int;
        if p < k {
            lemma_count_prefix_monotonic(s, f, p, k);
            lemma_count_split(s, f, p);
        }
    }
}

/// With more than `n` matches there are at least `n` and not at most `n`; with
/// fewer than `n` it is the other way round; there are both at least `n` and
/// at most `n` exactly if there are `n`.
pub proof fn lemma_at_least_and_at_most<T>(s: Seq<T>, f: spec_fn(T) -> bool, n: nat)
    ensures
        count_matches(s, f) > n ==> has_at_least(s, f, n) && !has_at_most(s, f, n),
        count_matches(s, f) < n ==> !has_at_least(s, f, n) && has_at_most(s, f, n),
        count_matches(s, f) == n <==> has_at_least(s, f, n) && has_at_most(s, f, n),
{
}

/// There are exactly `n` matches if there are at least `n` and at most `n`, and
/// for no `n` but the count itself.
pub proof fn lemma_exactly_one_count<T>(s: Seq<T>, f: spec_fn(T) -> bool, n: nat)
    ensures
        has_exactly(s, f, n) <==> has_at_least(s, f, n) && has_at_most(s, f, n),
        has_exactly(s, f, n) <==> n == count_matches(s, f),
        has_at_least(s, f, n + 1) ==> !has_exactly(s, f, n),
        n > 0 && has_at_most(s, f, (n - 1) as nat) ==> !has_exactly(s, f, n),
{
}

/// Two thresholds are met together exactly if each is met by itself.
pub proof fn lemma_exactly_m_n_is_both<T>(
    s: Seq<T>,
    f_m: spec_fn(T) -> bool,
    m: nat,
    f_n: spec_fn(T) -> bool,
    n: nat,
)
    ensures
        has_exactly_m_n(s, f_m, m, f_n, n) <==> has_exactly(s, f_m, m) && has_exactly(s, f_n, n),
{
}

/// A sequence is all-or-none exactly if it is empty, or all its items match,
/// or none does; in counts, if the count is zero or the length.
pub proof fn lemma_all_or_none_cases<T>(s: Seq<T>, f: spec_fn(T) -> bool)
    ensures
        is_all_or_none(s, f) <==> {
            ||| s.len() == 0
            ||| count_matches(s, f) == s.len()
            ||| count_matches(s, f) == 0
        },
        is_all_or_none(s, f) <==> is_all_or_none(s, negate(f)),
{
    lemma_all_or_none_by_count(s, f);
    lemma_all_or_none_by_count(s, negate(f));
    lemma_count_negate(s, f);
}

/// A sequence is perfectly balanced exactly if as many items match as do not,
/// which is to say that twice the count is the length.
pub proof fn lemma_perfectly_balanced_halves<T>(s: Seq<T>, f: spec_fn(T) -> bool)
    ensures
        is_perfectly_balanced(s, f) <==> count_matches(s, f) == count_matches(s, negate(f)),
        is_perfectly_balanced(s, f) <==> 2 * count_matches(s, f) == s.len(),
        s.len() % 2 == 1 ==> !is_perfectly_balanced(s, f),
{
    lemma_count_negate(s, f);
}

/// On the empty sequence every threshold but zero fails `has_at_least`, only
/// zero meets `has_exactly`, and `has_at_most`, `is_all_or_none` and
/// `is_perfectly_balanced` hold.
pub proof fn lemma_empty_verdicts<T>(f: spec_fn(T) -> bool, n: nat)
    ensures
        has_at_least(Seq::<T>::empty(), f, n) <==> n == 0,
        has_at_most(Seq::<T>::empty(), f, n),
        has_exactly(Seq::<T>::empty(), f, n) <==> n == 0,
        is_all_or_none(Seq::<T>::empty(), f),
        is_perfectly_balanced(Seq::<T>::empty(), f),
        pulled_until(Seq::<T>::empty(), f, n) == 0,
{
    lemma_count_empty(f);
}

} // verus!
