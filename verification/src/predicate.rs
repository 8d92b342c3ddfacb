//! How an executable predicate, a closure called once per item, is tied to the
//! mathematical predicate that the contracts count with.
//!
//! A closure may return anything that its own `ensures` admits. The contracts
//! therefore speak of it through every `f` that it [`computes`]: a caller who
//! knows what the closure returns names that `f` and gets the verdict for it.
//!
//! ```text
//! let is_two = |x: &u64| -> (b: bool)
//!     ensures b == (*x == 2),
//! { *x == 2 };
//! let found = v.into_iter().at_least(3, is_two);
//! assert(computes(is_two, |x: u64| x == 2, v@));
//! assert(found == has_at_least(v@, |x: u64| x == 2, 3));
//! ```

use vstd::prelude::*;

verus! {

/// `p` may be called on every item of `s`.
pub open spec fn callable_on<T, P: FnMut(&T) -> bool>(p: P, s: Seq<T>) -> bool {
    forall|i: int| 0 <= i < s.len() ==> call_requires(p, (&#[trigger] s[i],))
}

/// On every item of `s`, whatever `p` returns is the value of `f`.
pub open spec fn computes<T, P: FnMut(&T) -> bool>(
    p: P,
    f: spec_fn(T) -> bool,
    s: Seq<T>,
) -> bool {
    forall|i: int, b: bool|
        0 <= i < s.len() && #[trigger] call_ensures(p, (&s[i],), b) ==> b == f(s[i])
}

} // verus!
