//! The first item of a sequence that answers to a description.

use vstd::prelude::*;

verus! {

/// The position of the first item that `p` holds of.
pub open spec fn first_at<T>(items: Seq<T>, p: spec_fn(T) -> bool) -> Option<int>
    decreases items.len(),
{
    if items.len() == 0 {
        None
    } else {
        match first_at(items.drop_last(), p) {
            Some(i) => Some(i),
            None => if p(items.last()) {
                Some(items.len() - 1)
            } else {
                None
            },
        }
    }
}

/// `first_at` finds an item exactly where there is one, and then the first.
pub proof fn first_at_finds<T>(items: Seq<T>, p: spec_fn(T) -> bool)
    ensures
        match first_at(items, p) {
            Some(i) => 0 <= i < items.len() && p(items[i]) && forall|j: int|
                0 <= j < i ==> !p(#[trigger] items[j]),
            None => forall|j: int| 0 <= j < items.len() ==> !p(#[trigger] items[j]),
        },
    decreases items.len(),
{
    if items.len() > 0 {
        first_at_finds(items.drop_last(), p);
        assert forall|j: int| 0 <= j < items.len() - 1 implies #[trigger] items[j]
            == items.drop_last()[j] by {}
    }
}

/// What is found among the first items is what is found among all.
pub proof fn first_at_stays<T>(items: Seq<T>, p: spec_fn(T) -> bool, n: int)
    requires
        0 <= n <= items.len(),
        first_at(items.take(n), p) is Some,
    ensures
        first_at(items, p) == first_at(items.take(n), p),
    decreases items.len(),
{
    if n == items.len() {
        assert(items.take(n) == items);
    } else {
        assert(items.drop_last().take(n) == items.take(n));
        first_at_stays(items.drop_last(), p, n);
    }
}

/// Two sequences whose items answer alike, place by place, are searched alike.
pub proof fn first_at_alike<S, T>(
    a: Seq<S>,
    p: spec_fn(S) -> bool,
    b: Seq<T>,
    q: spec_fn(T) -> bool,
)
    requires
        a.len() == b.len(),
        forall|i: int| 0 <= i < a.len() ==> p(#[trigger] a[i]) == q(b[i]),
    ensures
        first_at(a, p) == first_at(b, q),
    decreases a.len(),
{
    if a.len() > 0 {
        assert forall|i: int| 0 <= i < a.len() - 1 implies p(#[trigger] a.drop_last()[i]) == q(
            b.drop_last()[i],
        ) by {
            assert(p(a[i]) == q(b[i]));
        }
        first_at_alike(a.drop_last(), p, b.drop_last(), q);
        assert(p(a[a.len() - 1]) == q(b[b.len() - 1]));
    }
}

} // verus!
