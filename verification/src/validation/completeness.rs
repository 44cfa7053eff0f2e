//! When validation reports no failures.
use crate::contract::{History, Operation, Transition};
use crate::ids::{BundleId, OpId, Txid};
use crate::validation::counting::forgiving_counts;
use crate::validation::laws::{branches_extend, reaches_from_ahead, walk_extends};
use crate::validation::model::{is_end, Progress, Reply};
use crate::validation::reporting::unobtained_at;
use crate::validation::soundness::{no_witness_failures_iff, tolerated};
use crate::validation::status::{Failure, Report, Validity};
use vstd::prelude::*;

verus! {

/// Holds of the transitions that have their anchors in a transaction.
spec fn in_transaction(history: History, txid: Txid) -> spec_fn(OpId) -> bool {
    |id: OpId| history.anchor(id) matches Some(anchor) && anchor.parts().txid == txid
}

impl History {
    /// Whether there is an end, or an ancestor of one, that is a transition with an identifier.
    spec fn reached(self, id: OpId) -> bool {
        exists|transition: Transition| #[trigger]
            self.ancestral(Operation::Transition(transition)) && transition.id == id
    }

    /// Transitions that were checked against anchors in a transaction.
    spec fn checked_in(self, progress: Progress, txid: Txid) -> Set<OpId> {
        progress.anchored.filter(in_transaction(self, txid))
    }

    /// Whether there are no failures so far but those to obtain unmined transactions, at most one
    /// for each transition that was checked against an anchor in the transaction.
    spec fn excusable(self, progress: Progress, unmined: Set<Txid>) -> bool {
        &&& tolerated(progress.report.failures, unmined)
        &&& progress.anchored.finite()
        &&& forall|id: OpId| #[trigger] progress.anchored.contains(id) ==> self.reached(id)
        &&& forall|txid: Txid| #[trigger]
            progress.report.missed(txid) <= self.checked_in(progress, txid).len()
    }
}

proof fn same_failures_excusable(
    history: History,
    progress: Progress,
    next: Progress,
    unmined: Set<Txid>,
)
    requires
        history.excusable(progress, unmined),
        next.report.failures == progress.report.failures,
        next.anchored == progress.anchored,
    ensures
        history.excusable(next, unmined),
{
    assert forall|txid: Txid| #[trigger]
        next.report.missed(txid) <= history.checked_in(next, txid).len() by {
        assert(progress.report.missed(txid) <= history.checked_in(progress, txid).len());
    }
}

proof fn check_excusable(
    history: History,
    transition: Transition,
    named: Option<BundleId>,
    progress: Progress,
    replies: Seq<Reply>,
    asked: Seq<Txid>,
    unmined: Set<Txid>,
)
    requires
        named matches Some(bundle_id) ==> history.counts_for(transition.id, bundle_id),
        history.ancestral(Operation::Transition(transition)),
        history.excusable(progress, unmined),
        history.unexceptionable(Operation::Transition(transition), asked, replies, unmined),
        history.check_anchor(transition, named, progress, replies).asked.is_prefix_of(asked),
    ensures
        history.excusable(history.check_anchor(transition, named, progress, replies), unmined),
{
    broadcast use vstd::seq_lib::group_to_multiset_ensures;

    let id = transition.id;
    let next = history.check_anchor(transition, named, progress, replies);
    if !progress.anchored.contains(id) {
        let anchored = history.anchored(id)->Some_0;
        let anchor = anchored.anchor;
        let question = anchor.parts().txid;
        let bundle_id = match named {
            Some(bundle_id) => bundle_id,
            None => anchored.bundle.bundle_id,
        };
        let i = progress.asked.len() as int;
        assert(next.asked[i] == question);
        assert(asked[i] == question);
        assert(history.counts_for(id, bundle_id));
        assert(history.answered(transition, bundle_id, anchor, asked[i], replies[i], unmined));
        assert(history.reached(id));
        match replies[i] {
            Ok(tx) => {
                no_witness_failures_iff(history, transition, bundle_id, anchor, tx@);
                assert(next.report.failures =~= progress.report.failures);
            },
            Err(_) => {
                assert(next.report.failures =~= progress.report.failures.push(
                    Failure::SealNoWitnessTx(question),
                ));
            },
        }
        assert forall|txid: Txid| #[trigger]
            next.report.missed(txid) <= history.checked_in(next, txid).len() by {
            let before = history.checked_in(progress, txid);
            let after = history.checked_in(next, txid);
            assert(progress.report.missed(txid) <= before.len());
            if question == txid {
                assert(after =~= before.insert(id));
            } else {
                assert(after =~= before);
            }
        }
    }
}

proof fn visit_excusable(
    history: History,
    operation: Operation,
    named: Option<BundleId>,
    progress: Progress,
    replies: Seq<Reply>,
    asked: Seq<Txid>,
    unmined: Set<Txid>,
)
    requires
        named matches Some(bundle_id) ==> history.counts_for(operation.id(), bundle_id),
        history.ancestral(operation),
        history.excusable(progress, unmined),
        history.unexceptionable(operation, asked, replies, unmined),
        history.visit(operation, named, progress, replies).asked.is_prefix_of(asked),
    ensures
        history.excusable(history.visit(operation, named, progress, replies), unmined),
{
    let checked = history.check_schema(operation, progress);
    assert(checked.report.failures =~= progress.report.failures);
    same_failures_excusable(history, progress, checked, unmined);
    let anchored = match operation {
        Operation::Transition(transition) => history.check_anchor(
            transition,
            named,
            checked,
            replies,
        ),
        _ => checked,
    };
    if let Operation::Transition(transition) = operation {
        check_excusable(history, transition, named, checked, replies, asked, unmined);
    }
    let next = history.visit(operation, named, progress, replies);
    assert(next.report.failures =~= anchored.report.failures);
    same_failures_excusable(history, anchored, next, unmined);
}

proof fn walk_excusable(
    history: History,
    queue: Seq<Operation>,
    visits: nat,
    named: Option<BundleId>,
    progress: Progress,
    replies: Seq<Reply>,
    asked: Seq<Txid>,
    unmined: Set<Txid>,
)
    requires
        named matches Some(bundle_id) ==> queue.len() > 0 && history.counts_for(
            queue[0].id(),
            bundle_id,
        ),
        history.excusable(progress, unmined),
        forall|ancestor: Operation| #[trigger]
            history.reaches(queue, ancestor) ==> history.ancestral(ancestor)
                && history.unexceptionable(ancestor, asked, replies, unmined),
        history.walk(queue, visits, named, progress, replies).asked.is_prefix_of(asked),
    ensures
        history.excusable(history.walk(queue, visits, named, progress, replies), unmined),
    decreases visits,
{
    if visits > 0 && queue.len() > 0 {
        let rest = (visits - 1) as nat;
        let ahead = history.advance(queue);
        let next = history.visit(queue[0], named, progress, replies);
        assert(history.descends(queue[0], queue[0], 0));
        assert(history.reaches(queue, queue[0]));
        walk_extends(history, ahead, rest, None, next, replies);
        visit_excusable(history, queue[0], named, progress, replies, asked, unmined);
        assert forall|ancestor: Operation| #[trigger]
            history.reaches(ahead, ancestor) implies history.ancestral(ancestor)
            && history.unexceptionable(ancestor, asked, replies, unmined) by {
            reaches_from_ahead(history, queue, ancestor);
        }
        walk_excusable(history, ahead, rest, None, next, replies, asked, unmined);
    }
}

proof fn branches_excusable(
    history: History,
    from: int,
    progress: Progress,
    replies: Seq<Reply>,
    asked: Seq<Txid>,
    unmined: Set<Txid>,
)
    requires
        0 <= from,
        history.excusable(progress, unmined),
        forall|ancestor: Operation| #[trigger]
            history.ancestral(ancestor) ==> history.unexceptionable(
                ancestor,
                asked,
                replies,
                unmined,
            ),
        history.branches(
            history.ends().transitions,
            from,
            progress,
            replies,
        ).asked.is_prefix_of(asked),
    ensures
        history.excusable(
            history.branches(history.ends().transitions, from, progress, replies),
            unmined,
        ),
    decreases history.ends().transitions.len() - from,
{
    let ends = history.ends().transitions;
    if from < ends.len() {
        let (transition, bundle_id) = ends[from];
        let queue = seq![Operation::Transition(transition)];
        let visits = choose|visits: nat| history.ends_after(queue, visits);
        let next = history.branch(transition, bundle_id, progress, replies);
        branches_extend(history, ends, from + 1, next, replies);
        assert(history.counts_for(transition.id, bundle_id)) by {
            assert(history.ends().transitions[from] == (transition, bundle_id));
        }
        assert forall|ancestor: Operation| #[trigger]
            history.reaches(queue, ancestor) implies history.ancestral(ancestor)
            && history.unexceptionable(ancestor, asked, replies, unmined) by {
            assert(history.ends().transitions[from] == ends[from]);
            assert(history.ancestral(ancestor));
        }
        walk_excusable(
            history,
            queue,
            visits,
            Some(bundle_id),
            progress,
            replies,
            asked,
            unmined,
        );
        branches_excusable(history, from + 1, next, replies, asked, unmined);
    }
}

/// Transitions that are ends with anchors in a transaction are no more than such ends.
proof fn ends_cover(
    history: History,
    ends: Seq<(Transition, BundleId)>,
    from: int,
    ids: Set<OpId>,
    txid: Txid,
)
    requires
        0 <= from,
        ids.finite(),
        forall|id: OpId| #[trigger]
            ids.contains(id) ==> in_transaction(history, txid)(id) && exists|i: int|
                from <= i < ends.len() && (#[trigger] ends[i]).0.id == id,
    ensures
        ids.len() <= history.ends_anchored_at(ends, from, txid),
    decreases ends.len() - from,
{
    if from < ends.len() {
        let id = ends[from].0.id;
        let others = ids.remove(id);
        assert forall|other: OpId| #[trigger]
            others.contains(other) implies in_transaction(history, txid)(other) && exists|i: int|
            from + 1 <= i < ends.len() && (#[trigger] ends[i]).0.id == other by {
            assert(ids.contains(other));
            let i = choose|i: int| from <= i < ends.len() && (#[trigger] ends[i]).0.id == other;
            assert(i != from);
        }
        ends_cover(history, ends, from + 1, others, txid);
        if ids.contains(id) {
            assert(in_transaction(history, txid)(id));
        }
    } else if ids.len() > 0 {
        let id = ids.choose();
        assert(ids.contains(id));
    }
}

proof fn forgive_adds_no_failures(
    history: History,
    ends: Seq<(Transition, BundleId)>,
    from: int,
    report: Report,
)
    ensures
        forall|failure: Failure| #[trigger]
            history.forgive(ends, from, report).failures.contains(failure)
                ==> report.failures.contains(failure),
    decreases ends.len() - from,
{
    let last = history.forgive(ends, from, report);
    if 0 <= from < ends.len() {
        match history.anchor(ends[from].0.id) {
            Some(anchor) => {
                let txid = anchor.parts().txid;
                let next = report.forgive(txid);
                assert(last == history.forgive(ends, from + 1, next));
                unobtained_at(report.failures, txid, 0);
                forgive_adds_no_failures(history, ends, from + 1, next);
                assert forall|failure: Failure| #[trigger]
                    next.failures.contains(failure) implies report.failures.contains(failure) by {
                    let i = next.failures.index_of(failure);
                    if let Some(pos) = Report::find_unobtained(report.failures, txid, 0) {
                        let j = if i < pos {
                            i
                        } else {
                            i + 1
                        };
                        assert(report.failures[j] == failure);
                    }
                }
            },
            None => {
                assert(last == history.forgive(ends, from + 1, report));
                forgive_adds_no_failures(history, ends, from + 1, report);
            },
        }
    }
}

/// Where the bundles, the terminals, the schema and the genesis are in order, and so is every end
/// and every ancestor of one, validation reports no failures. The witness transactions have to
/// be given by the resolver, but for unmined ones, and these may have no anchors in them but those
/// of ends. The consignment is then valid, but for the ends at most.
pub proof fn upheld_no_failures(history: History, replies: Seq<Reply>, unmined: Set<Txid>)
    requires
        history.ends().report.failures.len() == 0,
        history.schema_report.failures.len() == 0,
        history.schema_id == history.genesis.schema_id,
        (history.op_report)(Operation::Genesis(history.genesis)).failures.len() == 0,
        forall|ancestor: Operation| #[trigger]
            history.ancestral(ancestor) ==> history.unexceptionable(
                ancestor,
                history.validation(replies).asked,
                replies,
                unmined,
            ),
        forall|transition: Transition| #[trigger]
            history.ancestral(Operation::Transition(transition)) ==> (history.anchor(
                transition.id,
            ) matches Some(anchor) && unmined.contains(anchor.parts().txid) ==> is_end(
                history.ends().transitions,
                transition.id,
            )),
    ensures
        history.validation(replies).report.failures.len() == 0,
        ({
            let validity = history.validation(replies).report.validity();
            validity == Validity::Valid || validity == Validity::ValidExceptEndpoints
        }),
{
    broadcast use vstd::seq_lib::group_to_multiset_ensures;

    let ends = history.ends().transitions;
    let founded = history.found(history.started());
    let visited = history.branches(ends, 0, founded, replies);
    let asked = history.validation(replies).asked;
    assert(visited.asked.is_prefix_of(asked));
    assert forall|txid: Txid| #[trigger]
        founded.report.missed(txid) <= history.checked_in(founded, txid).len() by {
        assert(!founded.report.failures.contains(Failure::SealNoWitnessTx(txid)));
    }
    branches_excusable(history, 0, founded, replies, asked, unmined);
    let last = history.forgive(ends, 0, visited.report);
    forgive_adds_no_failures(history, ends, 0, visited.report);
    if last.failures.len() > 0 {
        let failure = last.failures[0];
        assert(last.failures.contains(failure));
        assert(visited.report.failures.contains(failure));
        let f = visited.report.failures.index_of(failure);
        assert(visited.report.failures[f] is SealNoWitnessTx);
        let txid = failure->SealNoWitnessTx_0;
        let ids = history.checked_in(visited, txid);
        assert forall|id: OpId| #[trigger] ids.contains(id) implies in_transaction(history, txid)(
            id,
        ) && exists|i: int| 0 <= i < ends.len() && (#[trigger] ends[i]).0.id == id by {
            assert(visited.anchored.contains(id));
            assert(history.reached(id));
            let transition = choose|transition: Transition| #[trigger]
                history.ancestral(Operation::Transition(transition)) && transition.id == id;
            assert(is_end(ends, transition.id));
        }
        ends_cover(history, ends, 0, ids, txid);
        assert(visited.report.missed(txid) <= ids.len());
        forgiving_counts(history, ends, 0, visited.report, txid);
        assert(last.missed(txid) == 0);
        assert(false);
    }
}

} // verus!
