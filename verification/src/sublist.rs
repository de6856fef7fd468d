//! Some of the items of a list, in its order.

use vstd::prelude::*;

verus! {

/// Whether `part` holds those items of `all` that `keep` accepts, each as often
/// as it stands there and in the same order: `places` says where each of them
/// stands.
pub open spec fn picks<T>(
    part: Seq<T>,
    all: Seq<T>,
    keep: spec_fn(T) -> bool,
    places: Seq<int>,
) -> bool {
    &&& places.len() == part.len()
    &&& forall|i: int|
        0 <= i < part.len() ==> 0 <= #[trigger] places[i] < all.len() && keep(all[places[i]])
            && part[i] == all[places[i]]
    &&& forall|i: int, j: int| 0 <= i < j < places.len() ==> #[trigger] places[i] < #[trigger] places[j]
    &&& forall|k: int| 0 <= k < all.len() && keep(#[trigger] all[k]) ==> places.contains(k)
}

/// Whether `part` holds those items of `all` that `keep` accepts, in their
/// order.
pub open spec fn is_picked<T>(part: Seq<T>, all: Seq<T>, keep: spec_fn(T) -> bool) -> bool {
    exists|places: Seq<int>| #[trigger] picks(part, all, keep, places)
}

pub proof fn lemma_picked_none<T>(keep: spec_fn(T) -> bool)
    ensures
        is_picked(Seq::<T>::empty(), Seq::<T>::empty(), keep),
{
    assert(picks(Seq::<T>::empty(), Seq::<T>::empty(), keep, Seq::<int>::empty()));
}

/// One more item is picked, or passed over.
pub proof fn lemma_picked_more<T>(part: Seq<T>, all: Seq<T>, keep: spec_fn(T) -> bool)
    requires
        all.len() > 0,
        is_picked(part, all.drop_last(), keep),
    ensures
        keep(all.last()) ==> is_picked(part.push(all.last()), all, keep),
        !keep(all.last()) ==> is_picked(part, all, keep),
{
    let front = all.drop_last();
    let places = choose|places: Seq<int>| #[trigger] picks(part, front, keep, places);
    let last = all.len() - 1;
    if keep(all.last()) {
        let more = places.push(last);
        let longer = part.push(all.last());
        assert forall|i: int| 0 <= i < longer.len() implies 0 <= #[trigger] more[i] < all.len()
            && keep(all[more[i]]) && longer[i] == all[more[i]] by {
            if i < part.len() {
                assert(more[i] == places[i]);
                assert(front[places[i]] == all[places[i]]);
            }
        }
        assert forall|i: int, j: int| 0 <= i < j < more.len() implies #[trigger] more[i]
            < #[trigger] more[j] by {
            assert(more[i] == places[i]);
            if j < part.len() {
                assert(more[j] == places[j]);
            }
        }
        assert forall|k: int| 0 <= k < all.len() && keep(#[trigger] all[k]) implies more.contains(
            k,
        ) by {
            if k < last {
                assert(front[k] == all[k]);
                let i = choose|i: int| 0 <= i < places.len() && places[i] == k;
                assert(more[i] == k);
            } else {
                assert(more[places.len() as int] == k);
            }
        }
        assert(picks(longer, all, keep, more));
    } else {
        assert forall|i: int| 0 <= i < part.len() implies 0 <= #[trigger] places[i] < all.len()
            && keep(all[places[i]]) && part[i] == all[places[i]] by {
            assert(front[places[i]] == all[places[i]]);
        }
        assert forall|k: int| 0 <= k < all.len() && keep(#[trigger] all[k]) implies places.contains(
            k,
        ) by {
            assert(front[k] == all[k]);
        }
        assert(picks(part, all, keep, places));
    }
}

/// An item is among the picked ones exactly when it is among all of them and is
/// accepted.
pub proof fn lemma_picked_contains<T>(part: Seq<T>, all: Seq<T>, keep: spec_fn(T) -> bool, item: T)
    requires
        is_picked(part, all, keep),
    ensures
        part.contains(item) <==> all.contains(item) && keep(item),
{
    let places = choose|places: Seq<int>| #[trigger] picks(part, all, keep, places);
    if part.contains(item) {
        let i = choose|i: int| 0 <= i < part.len() && part[i] == item;
        assert(all[places[i]] == item);
    }
    if all.contains(item) && keep(item) {
        let k = choose|k: int| 0 <= k < all.len() && all[k] == item;
        assert(places.contains(k));
        let i = choose|i: int| 0 <= i < places.len() && places[i] == k;
        assert(part[i] == item);
    }
}

} // verus!
