//! A container that is drained in random order.

use crate::random::random_below;
use rand::XorShiftRng;
use vstd::prelude::*;
use vstd::seq_lib::{to_multiset_insert, to_multiset_remove};

verus! {

/// What is left of `items` once the element at `index` has been taken out by
/// moving the last element into its place.
pub open spec fn swap_removed<T>(items: Seq<T>, index: int) -> Seq<T>
    recommends
        0 <= index < items.len(),
{
    items.update(index, items.last()).drop_last()
}

/// Taking an element out leaves one element less: the same elements as
/// before, each as often as before, but for one occurrence of the element
/// taken. Where no element occurred twice, the element taken is gone.
pub proof fn lemma_swap_removed<T>(items: Seq<T>, index: int)
    requires
        0 <= index < items.len(),
    ensures
        swap_removed(items, index).len() == items.len() - 1,
        swap_removed(items, index).to_multiset() == items.to_multiset().remove(items[index]),
        items.no_duplicates() ==> !swap_removed(items, index).contains(items[index]),
{
    let last = items.len() - 1;
    if items.no_duplicates() {
        let left = swap_removed(items, index);
        assert forall|i: int| 0 <= i < left.len() implies left[i] != items[index] by {
            if i == index {
                assert(left[i] == items[last]);
            } else {
                assert(left[i] == items[i]);
            }
        }
    }
    let without = items.remove(index);
    to_multiset_remove(items, index);
    if index == last {
        assert(swap_removed(items, index) =~= without);
    } else {
        let rest = without.remove(last - 1);
        to_multiset_remove(without, last - 1);
        to_multiset_insert(rest, index, items[last]);
        assert(without[last - 1] == items[last]);
        assert(swap_removed(items, index) =~= rest.insert(index, items[last]));
        without.to_multiset_ensures();
        assert(without.contains(items[last]));
        assert(swap_removed(items, index).to_multiset() =~= items.to_multiset().remove(
            items[index],
        ));
    }
}

/// Removes the element at `index` in constant time: the last element takes
/// its place and the container shrinks by one.
pub fn pick_at<T>(items: &mut Vec<T>, index: usize) -> (picked: T)
    requires
        index < old(items)@.len(),
    ensures
        picked == old(items)@[index as int],
        final(items)@ == swap_removed(old(items)@, index as int),
{
    items.swap_remove(index)
}

/// A container from which elements are taken out at random.
pub trait RandomQueue<T> {
    /// The elements currently held, in storage order.
    spec fn held(&self) -> Seq<T>;

    /// Takes one element out, chosen by a draw from `rng` over the current
    /// length, or returns `None` and leaves the container alone when it is
    /// empty.
    fn pick(&mut self, rng: &mut XorShiftRng) -> (picked: Option<T>)
        ensures
            old(self).held().len() == 0 ==> picked is None && final(self).held() == old(self).held(),
            old(self).held().len() > 0 ==> exists|index: int|
                0 <= index < old(self).held().len()
                && picked == Some(#[trigger] old(self).held()[index])
                && final(self).held() == swap_removed(old(self).held(), index),
    ;
}

impl<T> RandomQueue<T> for Vec<T> {
    open spec fn held(&self) -> Seq<T> {
        self@
    }

    fn pick(&mut self, rng: &mut XorShiftRng) -> (picked: Option<T>) {
        if self.is_empty() {
            return None;
        }
        let index: usize = random_below(rng, self.len());
        Some(pick_at(self, index))
    }
}

} // verus!
