//! The alternating merge of two iterators: its state, its pull protocol, and
//! the sequence of items that the protocol yields.

use vstd::prelude::*;
use vstd::std_specs::iter::IteratorSpec;

verus! {

/// What strict alternation yields from the items `a` of the source whose turn
/// it is and the items `b` of the other source: the first of `a`, then the
/// alternation with the turns exchanged; nothing once the source whose turn it
/// is has no item left, whatever the other still holds.
pub open spec fn interleave<T>(a: Seq<T>, b: Seq<T>) -> Seq<T>
    decreases a.len() + b.len(),
{
    if a.len() == 0 {
        Seq::empty()
    } else {
        seq![a.first()] + interleave(b, a.drop_first())
    }
}

/// What an alternation in the given state will still yield, where `a` and `b`
/// are the items that its first and its second source will still yield.
pub open spec fn upcoming<T>(
    finished: bool,
    second_is_next: bool,
    a: Seq<T>,
    b: Seq<T>,
) -> Seq<T> {
    if finished {
        Seq::empty()
    } else if second_is_next {
        interleave(b, a)
    } else {
        interleave(a, b)
    }
}

/// One pull on a sequence of upcoming items: it hands out the first of `before`
/// and leaves the rest, or signals exhaustion and leaves `before`, which is
/// empty, as it is.
pub open spec fn pulled<T>(before: Seq<T>, after: Seq<T>, item: Option<T>) -> bool {
    if before.len() > 0 {
        item == Some(before.first()) && after == before.drop_first()
    } else {
        item is None && after == before
    }
}

/// An iterator that iterates over two iterators alternately, starting with the
/// first, and that is finished for good as soon as the iterator whose turn it
/// is has nothing left.
#[derive(Debug)]
#[must_use]
pub struct Alternate<A, B> {
    a: A,
    b: B,
    odd: bool,
    done: bool,
}

impl<A, B> Alternate<A, B> {
    /// The first source, in its present state.
    pub closed spec fn first(&self) -> A {
        self.a
    }

    /// The second source, in its present state.
    pub closed spec fn second(&self) -> B {
        self.b
    }

    /// The turn flag: whether the next pull goes to the second source.
    pub closed spec fn second_is_next(&self) -> bool {
        self.odd
    }

    /// The finished flag: whether a pull has met an exhausted source.
    pub closed spec fn finished(&self) -> bool {
        self.done
    }
}

impl<A: Iterator<Item = T>, B: Iterator<Item = T>, T> Alternate<A, B> {
    /// A bound on the pulls that still yield an item, where both sources give
    /// one: the sum of theirs. Each such pull takes it down.
    pub open spec fn measure(&self) -> Option<nat> {
        if self.first().decrease() is Some && self.second().decrease() is Some {
            Some(self.first().decrease()->0 + self.second().decrease()->0)
        } else {
            None
        }
    }

    /// An alternation of `a` and `b` that is active and whose first pull goes to `a`.
    pub fn new(a: A, b: B) -> (merged: Self)
        ensures
            merged.first() == a,
            merged.second() == b,
            !merged.second_is_next(),
            !merged.finished(),
    {
        Self { a, b, odd: false, done: false }
    }
}

impl<A: Clone, B: Clone> Clone for Alternate<A, B> {
    /// A copy in the same state, over clones of the two sources.
    fn clone(&self) -> (copy: Self)
        ensures
            cloned::<A>(self.first(), copy.first()),
            cloned::<B>(self.second(), copy.second()),
            copy.second_is_next() == self.second_is_next(),
            copy.finished() == self.finished(),
    {
        Alternate { a: self.a.clone(), b: self.b.clone(), odd: self.odd, done: self.done }
    }
}

impl<A: Iterator<Item = T>, B: Iterator<Item = T>, T> Iterator for Alternate<A, B> {
    type Item = T;

    /// Once finished, returns `None` and pulls from neither source. While
    /// active, pulls once from the source whose turn it is, hands on what that
    /// gave, passes the turn to the other source, and is finished if that was
    /// `None`.
    fn next(&mut self) -> (item: Option<T>)
        ensures
            // Finished: nothing is pulled and nothing changes.
            old(self).finished() ==> item is None && *final(self) == *old(self),
            // Active: the turn passes on, exhaustion finishes, and the source
            // whose turn it was not is left as it was.
            !old(self).finished() ==> {
                &&& final(self).finished() == (item is None)
                &&& final(self).second_is_next() == !old(self).second_is_next()
                &&& if old(self).second_is_next() {
                    final(self).first() == old(self).first()
                } else {
                    final(self).second() == old(self).second()
                }
            },
            // Active: `item` is what one pull gave on the source whose turn it was.
            ({
                let (before, after) = (*old(self), *final(self));
                &&& after.first().obeys_prophetic_iter_laws()
                    == before.first().obeys_prophetic_iter_laws()
                &&& after.second().obeys_prophetic_iter_laws()
                    == before.second().obeys_prophetic_iter_laws()
                &&& !before.finished() && !before.second_is_next()
                    && before.first().obeys_prophetic_iter_laws() ==> pulled(
                    before.first().remaining(),
                    after.first().remaining(),
                    item,
                )
                &&& !before.finished() && before.second_is_next()
                    && before.second().obeys_prophetic_iter_laws() ==> pulled(
                    before.second().remaining(),
                    after.second().remaining(),
                    item,
                )
            }),
            // In all: over sources that obey the iterator laws, `item` is the
            // first of the upcoming items and the rest of them stay upcoming;
            // each item handed out takes the measure down.
            ({
                let (before, after) = (*old(self), *final(self));
                before.first().obeys_prophetic_iter_laws()
                    && before.second().obeys_prophetic_iter_laws() ==> {
                    &&& pulled(
                        upcoming(
                            before.finished(),
                            before.second_is_next(),
                            before.first().remaining(),
                            before.second().remaining(),
                        ),
                        upcoming(
                            after.finished(),
                            after.second_is_next(),
                            after.first().remaining(),
                            after.second().remaining(),
                        ),
                        item,
                    )
                    &&& after.measure() is Some == before.measure() is Some
                    &&& item is Some && before.measure() is Some ==> after.measure()->0
                        < before.measure()->0
                }
            }),
    {
        if self.done {
            return None;
        }
        let ghost a_before = self.a.remaining();
        let ghost b_before = self.b.remaining();
        let item = if self.odd {
            self.b.next()
        } else {
            self.a.next()
        };
        if item.is_none() {
            self.done = true;
        }
        proof {
            lemma_interleave_unfolds(a_before, b_before);
            lemma_interleave_unfolds(b_before, a_before);
        }
        self.odd = !self.odd;
        item
    }
}

/// An `Alternate` claims nothing through the prophetic interface of `vstd`:
/// what it will yield is a function of what its sources will yield, and the
/// contract of `next` states it over [`upcoming`]. Only its termination
/// measure is given here.
impl<A: Iterator<Item = T>, B: Iterator<Item = T>, T> vstd::std_specs::iter::IteratorSpecImpl for Alternate<A, B> {
    open spec fn obeys_prophetic_iter_laws(&self) -> bool {
        false
    }

    closed spec fn remaining(&self) -> Seq<T> {
        arbitrary()
    }

    closed spec fn will_return_none(&self) -> bool {
        arbitrary()
    }

    open spec fn decrease(&self) -> Option<nat> {
        self.measure()
    }

    open spec fn initial_value_relation(&self, init: &Self) -> bool {
        true
    }

    open spec fn peek(&self, index: int) -> Option<T> {
        None
    }
}

/// Where the source whose turn it is has an item, alternation yields that item
/// first and then what it yields with the turns exchanged.
pub proof fn lemma_interleave_unfolds<T>(a: Seq<T>, b: Seq<T>)
    ensures
        a.len() > 0 ==> pulled(interleave(a, b), interleave(b, a.drop_first()), Some(a.first())),
        a.len() == 0 ==> interleave(a, b).len() == 0,
{
    if a.len() > 0 {
        assert((seq![a.first()] + interleave(b, a.drop_first())).drop_first() =~= interleave(
            b,
            a.drop_first(),
        ));
    }
}

/// Strict alternation of a turn source with `k` items and another with `j`
/// yields `2 * k` items if `k <= j`, the exhaustion being met on a turn of the
/// first, and `2 * j + 1` items otherwise; the item at an even place `i` is
/// item `i / 2` of the turn source, the item at an odd place `i` is item
/// `i / 2` of the other.
pub proof fn lemma_interleave_alternates<T>(a: Seq<T>, b: Seq<T>)
    ensures
        interleave(a, b).len() == if a.len() <= b.len() {
            2 * a.len()
        } else {
            2 * b.len() + 1
        },
        forall|i: int|
            0 <= i < interleave(a, b).len() && i % 2 == 0 ==> i / 2 < a.len()
                && #[trigger] interleave(a, b)[i] == a[i / 2],
        forall|i: int|
            0 <= i < interleave(a, b).len() && i % 2 == 1 ==> i / 2 < b.len()
                && #[trigger] interleave(a, b)[i] == b[i / 2],
    decreases a.len() + b.len(),
{
    if a.len() > 0 {
        let rest = interleave(b, a.drop_first());
        lemma_interleave_alternates(b, a.drop_first());
        assert forall|i: int| 0 <= i < interleave(a, b).len() && i % 2 == 0 implies i / 2
            < a.len() && #[trigger] interleave(a, b)[i] == a[i / 2] by {
            if i > 0 {
                assert(interleave(a, b)[i] == rest[i - 1]);
                assert(rest[i - 1] == a.drop_first()[(i - 1) / 2]);
            }
        }
        assert forall|i: int| 0 <= i < interleave(a, b).len() && i % 2 == 1 implies i / 2
            < b.len() && #[trigger] interleave(a, b)[i] == b[i / 2] by {
            assert(interleave(a, b)[i] == rest[i - 1]);
            assert(rest[i - 1] == b[(i - 1) / 2]);
        }
    }
}

} // verus!
