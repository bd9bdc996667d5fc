//! The bounded sorted edge set of one node.

use super::key::{
    key_lt, lemma_order_transitive, lemma_order_trichotomy, lemma_slot_against_key,
    lemma_total_order_is_computed, option_less_than, slot_above, slot_below, total_order, KeyTraits,
};
use std::cmp::Ordering;
use vstd::prelude::*;
use vstd::std_specs::cmp::OrdSpec;
use vstd::std_specs::convert::FromSpecImpl;

verus! {

/// Why an identifier was not added to an edge set.
#[derive(Debug, PartialEq)]
pub enum AddEdgeError {
    /// The set already holds as many identifiers as it has room for.
    Overflow,
    /// The set already holds the identifier.
    Exists,
}

/// The out-edges of one node: at most `MAX_NEIGHBORS` identifiers, kept in a
/// fixed array of slots. The occupied slots come first and hold the
/// identifiers in strictly ascending order; the slots after them are empty.
#[derive(Debug, PartialEq)]
pub struct Neighbors<T: Clone, const MAX_NEIGHBORS: usize>([Option<T>; MAX_NEIGHBORS], usize);

/// Each identifier of `s` lies strictly before all that follow it.
pub open spec fn strictly_ascending<T: KeyTraits>(s: Seq<T>) -> bool {
    forall|i: int, j: int| 0 <= i < j < s.len() ==> key_lt(#[trigger] s[i], #[trigger] s[j])
}

/// `pos` splits `s` into the identifiers before `x` and those after `x`.
pub open spec fn is_insertion_point<T: KeyTraits>(s: Seq<T>, pos: int, x: T) -> bool {
    &&& 0 <= pos <= s.len()
    &&& forall|i: int| 0 <= i < pos ==> key_lt(#[trigger] s[i], x)
    &&& forall|i: int| pos <= i < s.len() ==> key_lt(x, #[trigger] s[i])
}

/// What a search for `x` in the ascending sequence `s` has to return: the
/// index at which `x` stands, or else the point at which it would go in.
spec fn is_search_result<T: KeyTraits>(s: Seq<T>, x: T, r: Result<usize, usize>) -> bool {
    match r {
        Ok(i) => 0 <= i < s.len() && s[i as int] == x,
        Err(pos) => is_insertion_point(s, pos as int, x),
    }
}

/// The index of the first empty slot, or the number of slots where none is
/// empty.
pub open spec fn first_empty<T>(slots: Seq<Option<T>>) -> nat {
    match slots.index_of_first(None) {
        Some(i) => i as nat,
        None => slots.len(),
    }
}

/// `first_empty` is the one index that has only occupied slots before it and
/// is the end of the slots or an empty slot itself.
pub proof fn lemma_first_empty<T>(slots: Seq<Option<T>>, k: int)
    ensures
        first_empty(slots) == k <==> {
            &&& 0 <= k <= slots.len()
            &&& forall|i: int| 0 <= i < k ==> (#[trigger] slots[i]) is Some
            &&& k < slots.len() ==> slots[k] is None
        },
{
    slots.index_of_first_ensures(None);
    let f = first_empty(slots) as int;
    assert forall|i: int| 0 <= i < f implies (#[trigger] slots[i]) is Some by {
        assert(slots[i] != None::<T>);
    }
    if f < slots.len() {
        assert(slots[f] is None);
    }
}

/// The number of identifiers of `s` that lie before `x`.
pub open spec fn rank<T: KeyTraits>(s: Seq<T>, x: T) -> nat
    decreases s.len(),
{
    if s.len() == 0 {
        0
    } else if key_lt(s.last(), x) {
        rank(s.drop_last(), x) + 1
    } else {
        rank(s.drop_last(), x)
    }
}

/// `s` with `x` put in after the identifiers that lie before it.
pub open spec fn sorted_insert<T: KeyTraits>(s: Seq<T>, x: T) -> Seq<T> {
    s.insert(rank(s, x) as int, x)
}

/// Why a set that holds `s` and has room for `cap` identifiers does not take
/// `x`, if it does not: it is full, or else it holds `x` already.
pub open spec fn append_error<T: KeyTraits>(s: Seq<T>, cap: nat, x: T) -> Option<AddEdgeError> {
    if s.len() >= cap {
        Some(AddEdgeError::Overflow)
    } else if s.contains(x) {
        Some(AddEdgeError::Exists)
    } else {
        None
    }
}

/// A call of `append(x)` on the set `before` returns `r` and leaves `after`:
/// a refusal leaves the set as it was, and otherwise `after` is the
/// well-formed set that holds `x` besides what `before` held.
pub open spec fn is_append<T: KeyTraits, const MAX_NEIGHBORS: usize>(
    before: Neighbors<T, MAX_NEIGHBORS>,
    x: T,
    r: Result<(), AddEdgeError>,
    after: Neighbors<T, MAX_NEIGHBORS>,
) -> bool {
    match append_error(before@, MAX_NEIGHBORS as nat, x) {
        Some(e) => r == Err::<(), AddEdgeError>(e) && after == before,
        None => {
            &&& r == Ok::<(), AddEdgeError>(())
            &&& after.wf()
            &&& after@ == sorted_insert(before@, x)
        },
    }
}

/// No more identifiers of `s` lie before `x` than `s` holds, so putting `x`
/// in makes `s` longer by one.
pub proof fn lemma_sorted_insert_len<T: KeyTraits>(s: Seq<T>, x: T)
    ensures
        rank(s, x) <= s.len(),
        sorted_insert(s, x).len() == s.len() + 1,
    decreases s.len(),
{
    if s.len() > 0 {
        lemma_sorted_insert_len(s.drop_last(), x);
    }
}

/// An insertion point of `x` has exactly the identifiers before `x` in front
/// of it.
pub proof fn lemma_rank_is_insertion_point<T: KeyTraits>(s: Seq<T>, pos: int, x: T)
    requires
        total_order::<T>(),
        is_insertion_point(s, pos, x),
    ensures
        rank(s, x) == pos,
    decreases s.len(),
{
    if s.len() > 0 {
        let front = s.drop_last();
        lemma_order_trichotomy(s.last(), x);
        if pos == s.len() {
            assert(key_lt(s[s.len() - 1], x));
            assert forall|i: int| 0 <= i < pos - 1 implies key_lt(#[trigger] front[i], x) by {
                assert(front[i] == s[i]);
            }
            lemma_rank_is_insertion_point(front, pos - 1, x);
        } else {
            assert(key_lt(x, s[s.len() - 1]));
            assert forall|i: int| 0 <= i < pos implies key_lt(#[trigger] front[i], x) by {
                assert(front[i] == s[i]);
            }
            assert forall|i: int| pos <= i < front.len() implies key_lt(x, #[trigger] front[i]) by {
                assert(front[i] == s[i]);
            }
            lemma_rank_is_insertion_point(front, pos, x);
        }
    }
}

/// A sequence that has an insertion point for `x` does not hold `x`.
pub proof fn lemma_insertion_point_excludes<T: KeyTraits>(s: Seq<T>, pos: int, x: T)
    requires
        total_order::<T>(),
        is_insertion_point(s, pos, x),
    ensures
        !s.contains(x),
{
    assert forall|i: int| 0 <= i < s.len() implies s[i] != x by {
        lemma_order_trichotomy(s[i], x);
    }
}

/// Putting `x` in at its insertion point keeps an ascending sequence
/// ascending.
pub proof fn lemma_insert_keeps_ascending<T: KeyTraits>(s: Seq<T>, pos: int, x: T)
    requires
        strictly_ascending(s),
        is_insertion_point(s, pos, x),
    ensures
        strictly_ascending(s.insert(pos, x)),
{
    let t = s.insert(pos, x);
    assert forall|i: int, j: int| 0 <= i < j < t.len() implies key_lt(t[i], t[j]) by {
        if j < pos {
            assert(t[i] == s[i] && t[j] == s[j]);
        } else if j == pos {
            assert(t[i] == s[i]);
        } else if i < pos {
            assert(t[i] == s[i] && t[j] == s[j - 1]);
        } else if i == pos {
            assert(t[j] == s[j - 1]);
        } else {
            assert(t[i] == s[i - 1] && t[j] == s[j - 1]);
        }
    }
}

impl<T: KeyTraits, const MAX_NEIGHBORS: usize> View for Neighbors<T, MAX_NEIGHBORS> {
    type V = Seq<T>;

    /// The identifiers held, in slot order.
    open spec fn view(&self) -> Seq<T> {
        Seq::new(self.count(), |i: int| self.slots()[i].unwrap())
    }
}

impl<T: KeyTraits, const MAX_NEIGHBORS: usize> Neighbors<T, MAX_NEIGHBORS> {
    /// The slots as they stand, occupied or empty.
    pub closed spec fn slots(&self) -> Seq<Option<T>> {
        self.0@
    }

    /// The number of slots counted as occupied.
    pub closed spec fn count(&self) -> nat {
        self.1 as nat
    }

    /// Exactly the first `count()` slots are occupied.
    pub open spec fn packed(&self) -> bool {
        &&& self.count() <= MAX_NEIGHBORS
        &&& forall|i: int|
            0 <= i < MAX_NEIGHBORS ==> ((#[trigger] self.slots()[i]) is Some <==> i < self.count())
    }

    /// The set is packed and its identifiers are strictly ascending.
    pub open spec fn wf(&self) -> bool {
        &&& self.packed()
        &&& strictly_ascending(self@)
    }

    /// A packed set is known by the identifiers it holds: two packed sets
    /// with the same identifiers in the same order are the same set.
    pub proof fn lemma_view_determines(&self, other: &Self)
        requires
            self.packed(),
            other.packed(),
            self@ == other@,
        ensures
            *self == *other,
    {
        assert(self.count() == other.count()) by {
            assert(self@.len() == self.count());
            assert(other@.len() == other.count());
        }
        assert forall|i: int| 0 <= i < MAX_NEIGHBORS implies self.0@[i] == other.0@[i] by {
            assert(self.slots()[i] is Some <==> other.slots()[i] is Some);
            if i < self.count() {
                assert(self@[i] == self.slots()[i].unwrap());
                assert(other@[i] == other.slots()[i].unwrap());
            }
        }
        assert(self.0 =~= other.0);
    }

    /// In a well-formed set, all slots up to one that is below `x` are below
    /// `x` as well.
    proof fn lemma_below_spreads_left(&self, mid: usize, x: T)
        requires
            self.wf(),
            total_order::<T>(),
            mid < MAX_NEIGHBORS,
            slot_below(self.slots()[mid as int], x),
        ensures
            forall|i: int| 0 <= i <= mid ==> slot_below(#[trigger] self.slots()[i], x),
    {
        let m = mid as int;
        lemma_slot_against_key(self.slots()[m], x);
        assert forall|i: int| 0 <= i <= mid implies slot_below(#[trigger] self.slots()[i], x) by {
            lemma_slot_against_key(self.slots()[i], x);
            if i < m {
                assert(key_lt(self@[i], self@[m]));
                lemma_order_transitive(self@[i], self@[m], x);
            }
        }
    }

    /// In a well-formed set, all slots from one that is above `x` onwards are
    /// above `x` as well.
    proof fn lemma_above_spreads_right(&self, mid: usize, x: T)
        requires
            self.wf(),
            total_order::<T>(),
            mid < MAX_NEIGHBORS,
            slot_above(self.slots()[mid as int], x),
        ensures
            forall|i: int| mid <= i < MAX_NEIGHBORS ==> slot_above(#[trigger] self.slots()[i], x),
    {
        let m = mid as int;
        lemma_slot_against_key(self.slots()[m], x);
        assert forall|i: int| mid <= i < MAX_NEIGHBORS implies slot_above(
            #[trigger] self.slots()[i],
            x,
        ) by {
            lemma_slot_against_key(self.slots()[i], x);
            if m < i < self.count() {
                assert(key_lt(self@[m], self@[i]));
                lemma_order_transitive(x, self@[m], self@[i]);
            }
        }
    }

    /// A slot that is neither below nor above `x` holds `x`, at an index
    /// within the identifiers held.
    proof fn lemma_found(&self, mid: usize, x: T)
        requires
            self.wf(),
            total_order::<T>(),
            mid < MAX_NEIGHBORS,
            !slot_below(self.slots()[mid as int], x),
            !slot_above(self.slots()[mid as int], x),
        ensures
            is_search_result(self@, x, Ok(mid)),
    {
        lemma_slot_against_key(self.slots()[mid as int], x);
    }

    /// Where the slots below `x` end and the slots above `x` begin, `x` goes
    /// in.
    proof fn lemma_not_found(&self, pos: usize, x: T)
        requires
            self.wf(),
            total_order::<T>(),
            pos <= MAX_NEIGHBORS,
            forall|i: int| 0 <= i < pos ==> slot_below(#[trigger] self.slots()[i], x),
            forall|i: int| pos <= i < MAX_NEIGHBORS ==> slot_above(#[trigger] self.slots()[i], x),
        ensures
            is_search_result(self@, x, Err(pos)),
    {
        let s = self@;
        if pos > self.count() {
            lemma_slot_against_key(self.slots()[self.count() as int], x);
        }
        assert forall|i: int| 0 <= i < pos implies key_lt(#[trigger] s[i], x) by {
            lemma_slot_against_key(self.slots()[i], x);
        }
        assert forall|i: int| pos <= i < s.len() implies key_lt(x, #[trigger] s[i]) by {
            lemma_slot_against_key(self.slots()[i], x);
        }
    }

    /// A set of the `N` identifiers given, in the order given.
    ///
    /// The identifiers are taken as they come: the set is well-formed exactly
    /// if they are strictly ascending.
    pub fn from_identifiers<const N: usize>(neighbors: &[T; N]) -> (r: Self)
        requires
            N <= MAX_NEIGHBORS,
        ensures
            r.packed(),
            r@ == neighbors@,
            r.wf() <==> strictly_ascending(neighbors@),
    {
        let mut slots: [Option<T>; MAX_NEIGHBORS] = [None;MAX_NEIGHBORS];
        let mut i: usize = 0;
        while i < N
            invariant
                i <= N <= MAX_NEIGHBORS,
                forall|k: int| 0 <= k < i ==> #[trigger] slots@[k] == Some(neighbors@[k]),
                forall|k: int| i <= k < MAX_NEIGHBORS ==> (#[trigger] slots@[k]) is None,
            decreases N - i,
        {
            slots[i] = Some(neighbors[i]);
            i += 1;
        }
        let r = Neighbors(slots, N);
        assert(r@ =~= neighbors@);
        r
    }

    /// Looks for `node_id` by binary search over all the slots, ordered by
    /// [`option_less_than`], under which the empty slots lie after every
    /// identifier.
    fn search(&self, node_id: T) -> (r: Result<usize, usize>)
        requires
            self.wf(),
            total_order::<T>(),
        ensures
            is_search_result(self@, node_id, r),
    {
        proof {
            lemma_total_order_is_computed::<T>();
        }
        let probe = Some(node_id);
        let mut lo: usize = 0;
        let mut hi: usize = MAX_NEIGHBORS;
        while lo < hi
            invariant
                self.wf(),
                total_order::<T>(),
                T::obeys_cmp_spec(),
                probe == Some(node_id),
                lo <= hi <= MAX_NEIGHBORS,
                forall|i: int| 0 <= i < lo ==> slot_below(#[trigger] self.slots()[i], node_id),
                forall|i: int|
                    hi <= i < MAX_NEIGHBORS ==> slot_above(#[trigger] self.slots()[i], node_id),
            decreases hi - lo,
        {
            let mid = lo + (hi - lo) / 2;
            match option_less_than(&self.0[mid], &probe) {
                Ordering::Less => {
                    proof {
                        self.lemma_below_spreads_left(mid, node_id);
                    }
                    lo = mid + 1;
                },
                Ordering::Greater => {
                    proof {
                        self.lemma_above_spreads_right(mid, node_id);
                    }
                    hi = mid;
                },
                Ordering::Equal => {
                    proof {
                        self.lemma_found(mid, node_id);
                    }
                    return Ok(mid);
                },
            }
        }
        proof {
            self.lemma_not_found(lo, node_id);
        }
        Err(lo)
    }

    /// Moves the identifiers from slot `pos` onwards one slot to the right,
    /// into the first empty slot, so that slot `pos` can be written.
    fn shift_right(&mut self, pos: usize)
        requires
            pos <= old(self).count() < MAX_NEIGHBORS,
        ensures
            final(self).count() == old(self).count(),
            forall|i: int|
                0 <= i < MAX_NEIGHBORS ==> #[trigger] final(self).slots()[i] == (if pos < i
                    <= old(self).count() {
                    old(self).slots()[i - 1]
                } else {
                    old(self).slots()[i]
                }),
    {
        let mut i: usize = self.1;
        while i > pos
            invariant
                pos <= i <= self.1 < MAX_NEIGHBORS,
                self.1 == old(self).1,
                forall|k: int|
                    0 <= k < MAX_NEIGHBORS ==> #[trigger] self.0@[k] == (if i < k
                        <= self.1 {
                        old(self).0@[k - 1]
                    } else {
                        old(self).0@[k]
                    }),
            decreases i,
        {
            self.0[i] = self.0[i - 1];
            i -= 1;
        }
    }

    /// Adds `node_id` to the set, at the place the order gives it.
    ///
    /// A full set takes nothing, and a set that holds `node_id` already does
    /// not take it again; on either refusal the set is left as it was.
    pub fn append(&mut self, node_id: T) -> (r: Result<(), AddEdgeError>)
        requires
            old(self).wf(),
            total_order::<T>(),
        ensures
            is_append(*old(self), node_id, r, *final(self)),
    {
        if self.1 < MAX_NEIGHBORS {
            match self.search(node_id) {
                Ok(_) => Err(AddEdgeError::Exists),
                Err(pos) => {
                    proof {
                        lemma_insertion_point_excludes(self@, pos as int, node_id);
                        lemma_rank_is_insertion_point(self@, pos as int, node_id);
                        lemma_insert_keeps_ascending(self@, pos as int, node_id);
                    }
                    self.shift_right(pos);
                    assert(self.slots().len() == MAX_NEIGHBORS);
                    self.0[pos] = Some(node_id);
                    self.1 += 1;
                    assert(self@ =~= old(self)@.insert(pos as int, node_id));
                    Ok(())
                },
            }
        } else {
            Err(AddEdgeError::Overflow)
        }
    }
}

impl<T: KeyTraits, const MAX_NEIGHBORS: usize> Clone for Neighbors<T, MAX_NEIGHBORS> {
    /// A set with the same slots and the same count.
    fn clone(&self) -> (r: Self)
        ensures
            r == *self,
    {
        Neighbors(self.0, self.1)
    }
}

impl<T: KeyTraits, const MAX_NEIGHBORS: usize> FromSpecImpl<&[Option<T>; MAX_NEIGHBORS]>
    for Neighbors<T, MAX_NEIGHBORS> {
    open spec fn obeys_from_spec() -> bool {
        true
    }

    closed spec fn from_spec(neighbors: &[Option<T>; MAX_NEIGHBORS]) -> Self {
        Neighbors(*neighbors, first_empty(neighbors@) as usize)
    }
}

impl<T: KeyTraits, const MAX_NEIGHBORS: usize> From<&[Option<T>; MAX_NEIGHBORS]>
    for Neighbors<T, MAX_NEIGHBORS> {
    /// A set with the slots given, which counts as occupied the slots before
    /// the first empty one.
    ///
    /// The slots are taken as they come: the set is packed exactly if no
    /// occupied slot follows an empty one.
    fn from(neighbors: &[Option<T>; MAX_NEIGHBORS]) -> (r: Self)
        ensures
            r.slots() == neighbors@,
            r.count() == first_empty(neighbors@),
            r.packed() <==> forall|i: int|
                first_empty(neighbors@) <= i < MAX_NEIGHBORS ==> (#[trigger] neighbors@[i]) is None,
    {
        let mut first_null: usize = 0;
        while first_null < MAX_NEIGHBORS && neighbors[first_null].is_some()
            invariant
                first_null <= MAX_NEIGHBORS,
                forall|i: int| 0 <= i < first_null ==> (#[trigger] neighbors@[i]) is Some,
            decreases MAX_NEIGHBORS - first_null,
        {
            first_null += 1;
        }
        proof {
            lemma_first_empty(neighbors@, first_null as int);
        }
        Neighbors(*neighbors, first_null)
    }
}

} // verus!
