//! What this crate relies on of `indexmap::IndexSet`, for sets of coordinate
//! triples.
//!
//! An `IndexSet` keeps its items in a compact sequence without repetition;
//! the contracts below speak of that sequence.

use vstd::prelude::*;
use indexmap::IndexSet;
use crate::sequences::swap_removed;

verus! {

/// A coordinate triple: the items that the sets of this crate hold.
pub type Triple = (i32, i32, i32);

/// `indexmap::IndexSet`, as a type whose inside is not looked into.
#[verifier::external_type_specification]
#[verifier::external_body]
#[verifier::reject_recursive_types(T)]
#[verifier::reject_recursive_types(S)]
pub struct ExIndexSet<T, S>(IndexSet<T, S>);

/// The items of the set, in the order of their indices.
pub uninterp spec fn index_set_items(set: IndexSet<Triple>) -> Seq<Triple>;

/// `IndexSet::new`: a set without items.
#[verifier::external_body]
pub(crate) fn index_set_new() -> (set: IndexSet<Triple>)
    ensures
        index_set_items(set) == Seq::<Triple>::empty(),
{
    IndexSet::new()
}

/// `IndexSet::len`: the number of items.
#[verifier::external_body]
pub(crate) fn index_set_len(set: &IndexSet<Triple>) -> (n: usize)
    ensures
        n == index_set_items(*set).len(),
{
    set.len()
}

/// `IndexSet::insert`: appends `value` unless the set holds it already, and
/// tells whether it did append.
#[verifier::external_body]
pub(crate) fn index_set_insert(set: &mut IndexSet<Triple>, value: Triple) -> (inserted: bool)
    ensures
        inserted == !index_set_items(*old(set)).contains(value),
        index_set_items(*final(set)) == (if inserted {
            index_set_items(*old(set)).push(value)
        } else {
            index_set_items(*old(set))
        }),
{
    set.insert(value)
}

/// `IndexSet::contains`: whether the set holds `value`.
#[verifier::external_body]
pub(crate) fn index_set_contains(set: &IndexSet<Triple>, value: &Triple) -> (found: bool)
    ensures
        found == index_set_items(*set).contains(*value),
{
    set.contains(value)
}

/// `IndexSet::remove`: takes `value` out, if the set holds it, by moving the
/// last item to its place, and tells whether the set held it.
#[verifier::external_body]
pub(crate) fn index_set_remove(set: &mut IndexSet<Triple>, value: &Triple) -> (removed: bool)
    ensures
        removed == index_set_items(*old(set)).contains(*value),
        index_set_items(*final(set)) == (if removed {
            swap_removed(index_set_items(*old(set)), index_set_items(*old(set)).index_of(*value))
        } else {
            index_set_items(*old(set))
        }),
{
    set.remove(value)
}

/// `IndexSet::get_index`: the item at `index`, if there is one.
#[verifier::external_body]
pub(crate) fn index_set_get_index(set: &IndexSet<Triple>, index: usize) -> (item: Option<Triple>)
    ensures
        item == (if index < index_set_items(*set).len() {
            Some(index_set_items(*set)[index as int])
        } else {
            None
        }),
{
    set.get_index(index).copied()
}

} // verus!
