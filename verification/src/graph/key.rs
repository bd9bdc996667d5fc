//! Node identifiers: the bundle of traits one must have, the total order the
//! containers rely on, and the slot comparator built on that order.

use std::cmp::Ordering;
use vstd::laws_cmp::{
    obeys_cmp, obeys_cmp_ord, obeys_cmp_partial_ord, obeys_partial_cmp_spec_properties,
};
use vstd::laws_eq::obeys_concrete_eq;
use vstd::prelude::*;
use vstd::std_specs::cmp::{OrdSpec, PartialEqSpec, PartialOrdSpec};

verus! {

/// What a node identifier has to offer: it is copied freely, totally ordered
/// and hashable.
pub trait KeyTraits: Clone + Ord + Copy + std::hash::Hash {}

impl<T: Clone + Ord + Copy + std::hash::Hash + ?Sized> KeyTraits for T {}

/// Whether comparing two identifiers of type `T` is a total order in which
/// exactly the identical identifiers compare equal.
pub open spec fn total_order<T: KeyTraits>() -> bool {
    &&& obeys_cmp::<T>()
    &&& obeys_concrete_eq::<T>()
}

/// `a` lies strictly before `b`.
pub open spec fn key_lt<T: KeyTraits>(a: T, b: T) -> bool {
    a.cmp_spec(&b) == Ordering::Less
}

/// Under a total order the executable comparison of `T` returns what the
/// order says.
pub proof fn lemma_total_order_is_computed<T: KeyTraits>()
    requires
        total_order::<T>(),
    ensures
        T::obeys_cmp_spec(),
{
    reveal(obeys_cmp_ord);
}

/// Of two identifiers exactly one holds: the first lies before the second,
/// they are identical, or the second lies before the first.
pub proof fn lemma_order_trichotomy<T: KeyTraits>(a: T, b: T)
    requires
        total_order::<T>(),
    ensures
        a.cmp_spec(&b) == Ordering::Equal <==> a == b,
        a.cmp_spec(&b) == Ordering::Greater <==> key_lt(b, a),
        key_lt(a, b) || a == b || key_lt(b, a),
        !(key_lt(a, b) && a == b),
        !(key_lt(a, b) && key_lt(b, a)),
{
    reveal(obeys_cmp_ord);
    reveal(obeys_cmp_partial_ord);
    reveal(obeys_partial_cmp_spec_properties);
    reveal(obeys_concrete_eq);
    assert(a.partial_cmp_spec(&b) == Some(a.cmp_spec(&b)));
    assert(b.partial_cmp_spec(&a) == Some(b.cmp_spec(&a)));
    assert(a.eq_spec(&b) <==> a == b);
}

/// The order is transitive.
pub proof fn lemma_order_transitive<T: KeyTraits>(a: T, b: T, c: T)
    requires
        total_order::<T>(),
        key_lt(a, b),
        key_lt(b, c),
    ensures
        key_lt(a, c),
{
    reveal(obeys_cmp_ord);
    reveal(obeys_partial_cmp_spec_properties);
    assert(a.partial_cmp_spec(&b) == Some(a.cmp_spec(&b)));
    assert(b.partial_cmp_spec(&c) == Some(b.cmp_spec(&c)));
    assert(a.partial_cmp_spec(&c) == Some(a.cmp_spec(&c)));
}

/// The order of two slots: an empty slot lies after every occupied one, two
/// empty slots are equal, and two occupied slots compare as their identifiers
/// do.
pub open spec fn slot_order<T: KeyTraits>(p: Option<T>, q: Option<T>) -> Ordering {
    match (p, q) {
        (Some(_), None) => Ordering::Less,
        (None, Some(_)) => Ordering::Greater,
        (None, None) => Ordering::Equal,
        (Some(x), Some(y)) => x.cmp_spec(&y),
    }
}

/// The slot holds an identifier that lies strictly before `x`.
pub open spec fn slot_below<T: KeyTraits>(slot: Option<T>, x: T) -> bool {
    slot_order(slot, Some(x)) == Ordering::Less
}

/// The slot is empty, or holds an identifier that lies strictly after `x`.
pub open spec fn slot_above<T: KeyTraits>(slot: Option<T>, x: T) -> bool {
    slot_order(slot, Some(x)) == Ordering::Greater
}

/// How a slot stands to an identifier `x` under a total order: it is below
/// `x` exactly if it holds an identifier before `x`, above `x` exactly if it
/// is empty or holds an identifier after `x`, and otherwise holds `x` itself.
pub proof fn lemma_slot_against_key<T: KeyTraits>(slot: Option<T>, x: T)
    requires
        total_order::<T>(),
    ensures
        slot_below(slot, x) <==> slot is Some && key_lt(slot.unwrap(), x),
        slot_above(slot, x) <==> slot is None || key_lt(x, slot.unwrap()),
        !slot_below(slot, x) && !slot_above(slot, x) <==> slot == Some(x),
{
    if let Some(y) = slot {
        lemma_order_trichotomy(y, x);
    }
}

/// Compares two slots by [`slot_order`]: an occupied slot comes before an
/// empty one, and two occupied slots compare as `T` compares what they hold.
pub fn option_less_than<T: KeyTraits>(p: &Option<T>, q: &Option<T>) -> (r: Ordering)
    ensures
        T::obeys_cmp_spec() || p is None || q is None ==> r == slot_order(*p, *q),
        p is Some && q is Some ==> call_ensures(T::cmp, (&p.unwrap(), &q.unwrap()), r),
{
    match (p, q) {
        (Some(_), None) => Ordering::Less,
        (None, Some(_)) => Ordering::Greater,
        (None, None) => Ordering::Equal,
        (Some(x), Some(y)) => x.cmp(y),
    }
}

} // verus!
