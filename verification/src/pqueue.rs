//! Double-ended priority queue of `(score, handle)` pairs.
//!
//! The bucket collector keeps its candidates in a `min_max_heap::MinMaxHeap`
//! so that both the current minimum and the current maximum can be removed
//! cheaply. The heap holds plain pairs, ordered lexicographically as std
//! defines for tuples: by score first, with the insertion handle breaking
//! ties. Its behaviour is taken on trust through the contracts below, which
//! say only what the crate's source shows: what the heap holds, and that
//! `pop_min` / `pop_max` remove an extreme element of it.

use vstd::prelude::*;
use vstd::multiset::Multiset;
use min_max_heap::MinMaxHeap;

verus! {

#[verifier::external_type_specification]
#[verifier::external_body]
#[verifier::reject_recursive_types(T)]
pub struct ExMinMaxHeap<T>(MinMaxHeap<T>);

/// The multiset of `(score, handle)` pairs a heap holds.
pub uninterp spec fn heap_entries(h: &MinMaxHeap<(u64, u64)>) -> Multiset<(u64, u64)>;

/// `a <= b` in the lexicographic order std defines on pairs of integers,
/// which is the order the heap ranks its entries by.
pub open spec fn pair_le(a: (u64, u64), b: (u64, u64)) -> bool {
    a.0 < b.0 || (a.0 == b.0 && a.1 <= b.1)
}

/// Relies on `MinMaxHeap::with_capacity`: a freshly built heap is empty.
#[verifier::external_body]
pub(crate) fn heap_with_capacity(capacity: usize) -> (h: MinMaxHeap<(u64, u64)>)
    ensures
        heap_entries(&h) == Multiset::<(u64, u64)>::empty(),
{
    MinMaxHeap::with_capacity(capacity)
}

/// Relies on `MinMaxHeap::len`: the number of elements held.
#[verifier::external_body]
pub(crate) fn heap_len(h: &MinMaxHeap<(u64, u64)>) -> (n: usize)
    ensures
        n == heap_entries(h).len(),
{
    h.len()
}

/// Relies on `MinMaxHeap::push`: adds the element to the heap.
#[verifier::external_body]
pub(crate) fn heap_push(h: &mut MinMaxHeap<(u64, u64)>, e: (u64, u64))
    ensures
        heap_entries(final(h)) == heap_entries(old(h)).insert(e),
{
    h.push(e)
}

/// Relies on `MinMaxHeap::pop_min`: removes and returns a minimum element
/// of the heap, or `None` when the heap is empty.
#[verifier::external_body]
pub(crate) fn heap_pop_min(h: &mut MinMaxHeap<(u64, u64)>) -> (r: Option<(u64, u64)>)
    ensures
        match r {
            Some(m) => {
                &&& heap_entries(old(h)).count(m) >= 1
                &&& heap_entries(final(h)) == heap_entries(old(h)).remove(m)
                &&& forall|q: (u64, u64)|
                    heap_entries(old(h)).count(q) > 0 ==> #[trigger] pair_le(m, q)
            },
            None => {
                &&& heap_entries(old(h)).len() == 0
                &&& heap_entries(final(h)) == heap_entries(old(h))
            },
        },
{
    h.pop_min()
}

/// Relies on `MinMaxHeap::pop_max`: removes and returns a maximum element
/// of the heap, or `None` when the heap is empty.
#[verifier::external_body]
pub(crate) fn heap_pop_max(h: &mut MinMaxHeap<(u64, u64)>) -> (r: Option<(u64, u64)>)
    ensures
        match r {
            Some(m) => {
                &&& heap_entries(old(h)).count(m) >= 1
                &&& heap_entries(final(h)) == heap_entries(old(h)).remove(m)
                &&& forall|q: (u64, u64)|
                    heap_entries(old(h)).count(q) > 0 ==> #[trigger] pair_le(q, m)
            },
            None => {
                &&& heap_entries(old(h)).len() == 0
                &&& heap_entries(final(h)) == heap_entries(old(h))
            },
        },
{
    h.pop_max()
}

} // verus!
