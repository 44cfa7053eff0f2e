//! What validation gathers from a consignment before it begins.
use crate::contract::{AnchoredBundle, ConsignmentApi, Transition};
use crate::ids::{BundleId, OpId};
use crate::index::OpIndex;
use crate::validation::model::{bundle_failures, find_bundle, is_end, Ends};
use crate::validation::status::{Failure, Status, Warning};
use vstd::prelude::*;

verus! {

/// Transitions that references refer to, with their bundles.
pub open spec fn transitions(ends: Seq<(&Transition, BundleId)>) -> Seq<(Transition, BundleId)> {
    ends.map_values(|end: (&Transition, BundleId)| (*end.0, end.1))
}

/// Whether an index holds the bundle of an operation, or none.
pub open spec fn indexed(
    index: Map<OpId, &AnchoredBundle>,
    id: OpId,
    anchored: Option<AnchoredBundle>,
) -> bool {
    match anchored {
        Some(anchored) => index.contains_key(id) && *index[id] == anchored,
        None => !index.contains_key(id),
    }
}

/// Whether a transition is among the first items of a bundle.
spec fn revealed_before(items: Seq<Option<Transition>>, id: OpId, upto: int) -> bool {
    exists|i: int|
        0 <= i < upto && (#[trigger] items[i] matches Some(transition) && transition.id == id)
}

/// Bundle of a transition as far as some bundles and the first items of the next one go.
spec fn bundle_before(
    bundles: Seq<AnchoredBundle>,
    id: OpId,
    bundle: int,
    item: int,
) -> Option<AnchoredBundle> {
    if revealed_before(bundles[bundle].bundle.items@, id, item) {
        Some(bundles[bundle])
    } else {
        find_bundle(bundles, id, bundle)
    }
}

/// Indexes the bundles of a consignment, with their anchors, by the transitions in them, and
/// reports the bundles that are inconsistent.
pub fn index_anchors<'consignment, C: ConsignmentApi>(
    consignment: &'consignment C,
    status: &mut Status,
) -> (index: OpIndex<&'consignment AnchoredBundle>)
    ensures
        index.well_formed(),
        forall|id: OpId| #[trigger]
            indexed(index@, id, consignment.history().anchored(id)),
        final(status)@ == old(status)@.fail_all(
            bundle_failures(consignment.history().bundles, 0),
        ),
{
    let bundles = consignment.anchored_bundles();
    let mut index: OpIndex<&'consignment AnchoredBundle> = OpIndex::new();
    let mut i: usize = 0;
    while i < bundles.len()
        invariant
            i <= bundles.len(),
            index.well_formed(),
            forall|id: OpId| #[trigger] indexed(index@, id, find_bundle(bundles@, id, i as int)),
            old(status)@.fail_all(bundle_failures(bundles@, 0)) == status@.fail_all(
                bundle_failures(bundles@, i as int),
            ),
        decreases bundles.len() - i,
    {
        let anchored = &bundles[i];
        let bundle = &anchored.bundle;
        let ghost before = status@;
        if !bundle.consistent {
            status.add_failure(Failure::BundleInvalid(bundle.bundle_id));
        }
        assert(before.fail_all(bundle_failures(bundles@, i as int)) =~= status@.fail_all(
            bundle_failures(bundles@, i + 1),
        ));
        let mut j: usize = 0;
        while j < bundle.items.len()
            invariant
                i < bundles.len(),
                j <= bundle.items.len(),
                *anchored == bundles@[i as int],
                *bundle == anchored.bundle,
                index.well_formed(),
                forall|id: OpId| #[trigger]
                    indexed(index@, id, bundle_before(bundles@, id, i as int, j as int)),
            decreases bundle.items.len() - j,
        {
            let ghost held = index@;
            if let Some(transition) = &bundle.items[j] {
                index.insert(transition.id, anchored);
            }
            proof {
                assert forall|id: OpId| #[trigger]
                    indexed(index@, id, bundle_before(bundles@, id, i as int, j + 1)) by {
                    let items = bundle.items@;
                    assert(indexed(held, id, bundle_before(bundles@, id, i as int, j as int)));
                    assert(revealed_before(items, id, j as int) ==> revealed_before(
                        items,
                        id,
                        j + 1,
                    ));
                    assert(items[j as int] matches Some(transition) && transition.id == id
                        ==> revealed_before(items, id, j + 1));
                }
            }
            j = j + 1;
        }
        i = i + 1;
        proof {
            assert forall|id: OpId| #[trigger]
                indexed(index@, id, find_bundle(bundles@, id, i as int)) by {
                assert(indexed(
                    index@,
                    id,
                    bundle_before(bundles@, id, i - 1, bundle.items@.len() as int),
                ));
                assert(revealed_before(bundle.items@, id, bundle.items@.len() as int)
                    == bundle.reveals(id));
            }
        }
    }
    assert(status@ =~= status@.fail_all(Seq::empty()));
    index
}

/// Whether a transition is among the ends found so far.
fn has_end(ends: &Vec<(&Transition, BundleId)>, opid: OpId) -> (found: bool)
    ensures
        found == is_end(transitions(ends@), opid),
{
    let ghost found_so_far = transitions(ends@);
    let mut i: usize = 0;
    while i < ends.len()
        invariant
            i <= ends.len(),
            found_so_far == transitions(ends@),
            forall|j: int| 0 <= j < i ==> (#[trigger] found_so_far[j]).0.id != opid,
        decreases ends.len() - i,
    {
        if ends[i].0.id == opid {
            assert(found_so_far[i as int].0.id == opid);
            return true;
        }
        i = i + 1;
    }
    false
}

/// Collects the transitions that end the history of a consignment, and reports what is out of
/// order with the terminals.
pub fn collect_ends<'consignment, C: ConsignmentApi>(
    consignment: &'consignment C,
    status: &mut Status,
) -> (ends: Vec<(&'consignment Transition, BundleId)>)
    ensures
        (Ends { report: final(status)@, transitions: transitions(ends@) }) == (Ends {
            report: old(status)@,
            transitions: Seq::empty(),
        }).note_terminals(consignment.history(), 0),
{
    let ghost history = consignment.history();
    let terminals = consignment.terminals();
    let mut ends: Vec<(&'consignment Transition, BundleId)> = Vec::new();
    assert(transitions(ends@) =~= Seq::empty());
    let mut i: usize = 0;
    while i < terminals.len()
        invariant
            i <= terminals.len(),
            history == consignment.history(),
            terminals@ == history.terminals,
            (Ends { report: old(status)@, transitions: Seq::empty() }).note_terminals(history, 0)
                == (Ends { report: status@, transitions: transitions(ends@) }).note_terminals(
                history,
                i as int,
            ),
        decreases terminals.len() - i,
    {
        let (bundle_id, seal_endpoint) = terminals[i];
        match consignment.known_transitions_by_bundle_id(bundle_id) {
            None => {
                status.add_failure(Failure::BundleInvalid(bundle_id));
            },
            Some(known) => {
                let ghost bundled = history.bundled[bundle_id];
                let ghost noted = (Ends {
                    report: status@,
                    transitions: transitions(ends@),
                }).note_all(bundled, 0, bundle_id, seal_endpoint);
                let mut j: usize = 0;
                while j < known.len()
                    invariant
                        j <= known.len(),
                        known.len() == bundled.len(),
                        forall|k: int| 0 <= k < known@.len() ==> *(#[trigger] known@[k])
                            == bundled[k],
                        noted == (Ends {
                            report: status@,
                            transitions: transitions(ends@),
                        }).note_all(bundled, j as int, bundle_id, seal_endpoint),
                    decreases known.len() - j,
                {
                    let transition = known[j];
                    let opid = transition.id;
                    let ghost before = transitions(ends@);
                    // This is a warning and no failure: it is up to the user whether to accept
                    // a consignment with a wrong list of terminals.
                    if !transition.has_confidential_seal(seal_endpoint) {
                        status.add_warning(Warning::TerminalSealAbsent(opid, seal_endpoint));
                    }
                    if has_end(&ends, opid) {
                        status.add_warning(Warning::TerminalDuplication(opid, seal_endpoint));
                    } else {
                        ends.push((transition, bundle_id));
                        assert(transitions(ends@) =~= before.push((*transition, bundle_id)));
                    }
                    j = j + 1;
                }
            },
        }
        i = i + 1;
    }
    ends
}

} // verus!
