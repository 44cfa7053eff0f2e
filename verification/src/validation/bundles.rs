//! What is gathered from the bundles of a consignment, in terms of what they hold.
use crate::contract::{AnchoredBundle, History};
use crate::ids::OpId;
use crate::validation::model::{bundle_failures, find_bundle};
use crate::validation::status::Failure;
use vstd::prelude::*;

verus! {

/// Taking items apart one by one from an index on, what the first comes to stands before what the
/// others come to.
pub(crate) proof fn flat_map_steps<A, B>(items: Seq<A>, f: spec_fn(A) -> Seq<B>, from: int)
    requires
        0 <= from <= items.len(),
    ensures
        from < items.len() ==> items.skip(from).flat_map(f) == f(items[from]) + items.skip(
            from + 1,
        ).flat_map(f),
        from == items.len() ==> items.skip(from).flat_map(f) == Seq::<B>::empty(),
{
    let mapped = items.skip(from).map_values(f);
    if from < items.len() {
        assert(mapped.drop_first() =~= items.skip(from + 1).map_values(f));
    }
}

proof fn bundle_failures_from(bundles: Seq<AnchoredBundle>, from: int)
    requires
        0 <= from <= bundles.len(),
    ensures
        bundle_failures(bundles, from) == bundles.skip(from).flat_map(
            |anchored: AnchoredBundle|
                if anchored.bundle.consistent {
                    Seq::<Failure>::empty()
                } else {
                    seq![Failure::BundleInvalid(anchored.bundle.bundle_id)]
                },
        ),
    decreases bundles.len() - from,
{
    let f = |anchored: AnchoredBundle|
        if anchored.bundle.consistent {
            Seq::<Failure>::empty()
        } else {
            seq![Failure::BundleInvalid(anchored.bundle.bundle_id)]
        };
    flat_map_steps(bundles, f, from);
    if from < bundles.len() {
        bundle_failures_from(bundles, from + 1);
        assert(bundle_failures(bundles, from) =~= f(bundles[from]) + bundle_failures(
            bundles,
            from + 1,
        ));
    }
}

/// The bundles are reported one by one and in their order, just those that are inconsistent,
/// whatever they reveal.
pub proof fn inconsistent_bundles_listed(bundles: Seq<AnchoredBundle>)
    ensures
        bundle_failures(bundles, 0) == bundles.flat_map(
            |anchored: AnchoredBundle|
                if anchored.bundle.consistent {
                    Seq::<Failure>::empty()
                } else {
                    seq![Failure::BundleInvalid(anchored.bundle.bundle_id)]
                },
        ),
{
    bundle_failures_from(bundles, 0);
    assert(bundles.skip(0) =~= bundles);
}

proof fn bundle_failure_from(bundles: Seq<AnchoredBundle>, from: int, failure: Failure)
    requires
        0 <= from,
    ensures
        bundle_failures(bundles, from).contains(failure) <==> exists|i: int|
            {
                &&& from <= i < bundles.len()
                &&& !(#[trigger] bundles[i]).bundle.consistent
                &&& failure == Failure::BundleInvalid(bundles[i].bundle.bundle_id)
            },
    decreases bundles.len() - from,
{
    if from < bundles.len() {
        bundle_failure_from(bundles, from + 1, failure);
        let rest = bundle_failures(bundles, from + 1);
        let own = seq![Failure::BundleInvalid(bundles[from].bundle.bundle_id)];
        if !bundles[from].bundle.consistent {
            contains_add(own, rest, failure);
            assert(own[0] == Failure::BundleInvalid(bundles[from].bundle.bundle_id));
        }
    }
}

pub(crate) proof fn contains_add<A>(first: Seq<A>, second: Seq<A>, item: A)
    ensures
        (first + second).contains(item) <==> first.contains(item) || second.contains(item),
{
    if first.contains(item) {
        assert((first + second)[first.index_of(item)] == item);
    }
    if second.contains(item) {
        assert((first + second)[first.len() + second.index_of(item)] == item);
    }
    if (first + second).contains(item) {
        let i = (first + second).index_of(item);
        if i < first.len() {
            assert(first[i] == item);
        } else {
            assert(second[i - first.len()] == item);
        }
    }
}

/// What comes of taking items apart one by one holds just what comes of each of them.
pub(crate) proof fn flat_map_contains<A, B>(items: Seq<A>, f: spec_fn(A) -> Seq<B>, part: B)
    ensures
        items.flat_map(f).contains(part) <==> exists|i: int|
            0 <= i < items.len() && f(#[trigger] items[i]).contains(part),
{
    flat_map_contains_from(items, f, 0, part);
    assert(items.skip(0) =~= items);
}

proof fn flat_map_contains_from<A, B>(
    items: Seq<A>,
    f: spec_fn(A) -> Seq<B>,
    from: int,
    part: B,
)
    requires
        0 <= from <= items.len(),
    ensures
        items.skip(from).flat_map(f).contains(part) <==> exists|i: int|
            from <= i < items.len() && f(#[trigger] items[i]).contains(part),
    decreases items.len() - from,
{
    flat_map_steps(items, f, from);
    if from < items.len() {
        flat_map_contains_from(items, f, from + 1, part);
        contains_add(f(items[from]), items.skip(from + 1).flat_map(f), part);
    }
}

/// A bundle is reported as inconsistent just where it is, and where all bundles are consistent
/// none is reported.
pub proof fn bundle_failure_iff(bundles: Seq<AnchoredBundle>, failure: Failure)
    ensures
        bundle_failures(bundles, 0).contains(failure) <==> exists|i: int|
            {
                &&& 0 <= i < bundles.len()
                &&& !(#[trigger] bundles[i]).bundle.consistent
                &&& failure == Failure::BundleInvalid(bundles[i].bundle.bundle_id)
            },
        (forall|i: int| 0 <= i < bundles.len() ==> (#[trigger] bundles[i]).bundle.consistent)
            ==> bundle_failures(bundles, 0).len() == 0,
{
    bundle_failure_from(bundles, 0, failure);
    if bundle_failures(bundles, 0).len() > 0 {
        let found = bundle_failures(bundles, 0)[0];
        assert(bundle_failures(bundles, 0).contains(found));
        bundle_failure_from(bundles, 0, found);
    }
}

proof fn find_bundle_last(bundles: Seq<AnchoredBundle>, id: OpId, upto: int)
    requires
        0 <= upto <= bundles.len(),
    ensures
        match find_bundle(bundles, id, upto) {
            None => forall|i: int, k: int|
                0 <= i < upto && 0 <= k < bundles[i].bundle.items@.len()
                    && #[trigger] bundles[i].bundle.items@[k] is Some
                    ==> bundles[i].bundle.items@[k]->Some_0.id != id,
            Some(anchored) => exists|i: int, k: int|
                {
                    &&& 0 <= i < upto
                    &&& bundles[i] == anchored
                    &&& 0 <= k < bundles[i].bundle.items@.len()
                    &&& #[trigger] bundles[i].bundle.items@[k] is Some
                    &&& bundles[i].bundle.items@[k]->Some_0.id == id
                    &&& forall|j: int, l: int|
                        i < j < upto && 0 <= l < bundles[j].bundle.items@.len()
                            && #[trigger] bundles[j].bundle.items@[l] is Some
                            ==> bundles[j].bundle.items@[l]->Some_0.id != id
                },
        },
    decreases upto,
{
    if upto > 0 {
        find_bundle_last(bundles, id, upto - 1);
        let bundle = bundles[upto - 1].bundle;
        if bundle.reveals(id) {
            let k = choose|k: int|
                0 <= k < bundle.items@.len() && (#[trigger] bundle.items@[k] matches Some(
                    transition,
                ) && transition.id == id);
            assert(bundles[upto - 1].bundle.items@[k] is Some);
        } else {
            assert forall|l: int| 0 <= l < bundle.items@.len() && (
            #[trigger] bundle.items@[l]) is Some implies bundle.items@[l]->Some_0.id != id by {
                if bundle.items@[l]->Some_0.id == id {
                    assert(bundle.items@[l] matches Some(transition) && transition.id == id);
                }
            }
            if find_bundle(bundles, id, upto - 1) is Some {
                let anchored = find_bundle(bundles, id, upto - 1)->Some_0;
                let (i, k) = choose|i: int, k: int|
                    {
                        &&& 0 <= i < upto - 1
                        &&& bundles[i] == anchored
                        &&& 0 <= k < bundles[i].bundle.items@.len()
                        &&& #[trigger] bundles[i].bundle.items@[k] is Some
                        &&& bundles[i].bundle.items@[k]->Some_0.id == id
                        &&& forall|j: int, l: int|
                            i < j < upto - 1 && 0 <= l < bundles[j].bundle.items@.len()
                                && #[trigger] bundles[j].bundle.items@[l] is Some
                                ==> bundles[j].bundle.items@[l]->Some_0.id != id
                    };
                assert(bundles[i].bundle.items@[k] is Some);
            }
        }
    }
}

/// A transition has a bundle just where some item of some bundle is the transition, revealed. The
/// bundle is the last with such an item, wherever in the bundle the item stands.
pub proof fn anchored_last(history: History, id: OpId)
    ensures
        match history.anchored(id) {
            None => forall|i: int, k: int|
                0 <= i < history.bundles.len() && 0 <= k < history.bundles[i].bundle.items@.len()
                    && #[trigger] history.bundles[i].bundle.items@[k] is Some
                    ==> history.bundles[i].bundle.items@[k]->Some_0.id != id,
            Some(anchored) => exists|i: int, k: int|
                {
                    &&& 0 <= i < history.bundles.len()
                    &&& history.bundles[i] == anchored
                    &&& 0 <= k < history.bundles[i].bundle.items@.len()
                    &&& #[trigger] history.bundles[i].bundle.items@[k] is Some
                    &&& history.bundles[i].bundle.items@[k]->Some_0.id == id
                    &&& forall|j: int, l: int|
                        i < j < history.bundles.len() && 0 <= l
                            < history.bundles[j].bundle.items@.len()
                            && #[trigger] history.bundles[j].bundle.items@[l] is Some
                            ==> history.bundles[j].bundle.items@[l]->Some_0.id != id
                },
        },
        history.anchor(id) is Some <==> history.anchored(id) is Some,
        history.anchored(id) matches Some(anchored) ==> history.anchor(id) == Some(
            anchored.anchor,
        ) && history.bundle(id) == Some(anchored.bundle.bundle_id),
        history.bundle(id) is Some <==> history.anchored(id) is Some,
{
    find_bundle_last(history.bundles, id, history.bundles.len() as int);
}

} // verus!
