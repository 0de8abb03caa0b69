//! Subscribers by keys, in a store of the `slab` crate.

use std::sync::Arc;

use slab::Slab;
use vstd::prelude::*;

use crate::buffer::fits;
use crate::registry::DataTx;

verus! {

/// `slab::Slab`, a store that gives each value a key of its own.
#[verifier::external_type_specification]
#[verifier::external_body]
#[verifier::reject_recursive_types(T)]
pub struct ExSlab<T>(Slab<T>);

/// The values in a slab, by their keys.
pub uninterp spec fn slots(slab: Slab<Arc<DataTx>>) -> Map<usize, Arc<DataTx>>;

/// `Slab::with_capacity` gives an empty slab, whatever room it has. An entry takes up to sixteen
/// bytes, and more than can be allocated makes it panic.
#[verifier::external_body]
pub(crate) fn slab_with_capacity(capacity: usize) -> (r: Slab<Arc<DataTx>>)
    requires
        fits((capacity * 16) as nat),
    ensures
        (slots(r) == Map::<usize, Arc<DataTx>>::empty()),
{
    Slab::with_capacity(capacity)
}

/// `Slab::insert` stores the value under a key that was free, and returns the key.
#[verifier::external_body]
pub(crate) fn slab_insert(slab: &mut Slab<Arc<DataTx>>, value: Arc<DataTx>) -> (key: usize)
    ensures
        !slots(*old(slab)).contains_key(key),
        slots(*final(slab)) == slots(*old(slab)).insert(key, value),
{
    slab.insert(value)
}

/// `Slab::remove` takes out the value of a key and returns it. It panics where there is none.
#[verifier::external_body]
pub(crate) fn slab_remove(slab: &mut Slab<Arc<DataTx>>, key: usize) -> (value: Arc<DataTx>)
    requires
        slots(*old(slab)).contains_key(key),
    ensures
        value == slots(*old(slab))[key],
        slots(*final(slab)) == slots(*old(slab)).remove(key),
{
    slab.remove(key)
}

/// `Slab::contains` says whether there is a value for the key.
#[verifier::external_body]
pub(crate) fn slab_contains(slab: &Slab<Arc<DataTx>>, key: usize) -> (r: bool)
    ensures
        r == slots(*slab).contains_key(key),
{
    slab.contains(key)
}

/// `Slab::iter` walks the values with their keys, in the order of the keys.
#[verifier::external_body]
pub(crate) fn slab_iter(slab: &Slab<Arc<DataTx>>) -> (items: Vec<(usize, Arc<DataTx>)>)
    ensures
        lists(slots(*slab), items@),
{
    slab.iter().map(|(key, value)| (key, value.clone())).collect()
}

/// `items` holds each subscriber with its key once, in the order of the keys.
pub open spec fn lists(
    subscribers: Map<usize, Arc<DataTx>>,
    items: Seq<(usize, Arc<DataTx>)>,
) -> bool {
    &&& forall|i: int, j: int| 0 <= i < j < items.len() ==> (#[trigger] items[i]).0 < (
    #[trigger] items[j]).0
    &&& forall|i: int|
        0 <= i < items.len() ==> subscribers.contains_key((#[trigger] items[i]).0)
            && subscribers[items[i].0] == items[i].1
    &&& forall|key: usize| #[trigger]
        subscribers.contains_key(key) ==> exists|i: int|
            0 <= i < items.len() && #[trigger] items[i] == (key, subscribers[key])
}

} // verus!
