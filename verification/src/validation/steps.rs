//! What each step of validation adds, and how the steps make up the whole.
use crate::contract::{outside, History, Operation, Transition};
use crate::ids::{BundleId, OpId, Txid};
use crate::validation::model::{Progress, Reply};
use crate::validation::status::{Failure, Report, Warning};
use vstd::prelude::*;

verus! {

/// Checking an operation against the schema adds all that the schema reports of it, part by part,
/// the first time, and nothing after that. No question is put to the resolver.
pub proof fn schema_check_adds(history: History, operation: Operation, progress: Progress)
    ensures
        ({
            let next = history.check_schema(operation, progress);
            let report = (history.op_report)(operation);
            let before = progress.report;
            &&& progress.validated.contains(operation.id()) ==> next == progress
            &&& !progress.validated.contains(operation.id()) ==> {
                &&& next.validated == progress.validated.insert(operation.id())
                &&& next.anchored == progress.anchored
                &&& next.asked == progress.asked
                &&& next.report.failures == before.failures + report.failures
                &&& next.report.warnings == before.warnings + report.warnings
                &&& next.report.unresolved_txids == before.unresolved_txids
                    + report.unresolved_txids
                &&& next.report.unmined_terminals == before.unmined_terminals
                    + report.unmined_terminals
            }
        }),
{
}

/// Checking a transition against its anchor is a failure where it has none. Otherwise, and where it
/// was not checked before, the resolver is asked for the transaction of the anchor, and what is
/// wrong is added: that the anchor makes no commitment under the contract and, behind it, what the
/// reply comes to. The transition is taken with the bundle that it is named with, and with its own
/// bundle where it is named with none.
pub proof fn anchor_check_adds(
    history: History,
    transition: Transition,
    named: Option<BundleId>,
    progress: Progress,
    replies: Seq<Reply>,
)
    ensures
        ({
            let next = history.check_anchor(transition, named, progress, replies);
            let before = progress.report;
            &&& next.validated == progress.validated
            &&& next.report.warnings == before.warnings
            &&& next.report.unmined_terminals == before.unmined_terminals
            &&& match history.anchored(transition.id) {
                None => {
                    &&& next.report.failures == before.failures.push(
                        Failure::NotAnchored(transition.id),
                    )
                    &&& next.report.unresolved_txids == before.unresolved_txids
                    &&& next.anchored == progress.anchored
                    &&& next.asked == progress.asked
                },
                Some(anchored) => {
                    let txid = anchored.anchor.parts().txid;
                    let misplaced = if anchored.anchor.serves(history.genesis.contract_id) {
                        Seq::<Failure>::empty()
                    } else {
                        seq![Failure::NotInAnchor(transition.id, txid)]
                    };
                    let bundle_id = if named is Some {
                        named->Some_0
                    } else {
                        anchored.bundle.bundle_id
                    };
                    &&& progress.anchored.contains(transition.id) ==> next == progress
                    &&& !progress.anchored.contains(transition.id) ==> {
                        &&& next.anchored == progress.anchored.insert(transition.id)
                        &&& next.asked == progress.asked.push(txid)
                        &&& match replies[progress.asked.len() as int] {
                            Err(_) => {
                                &&& next.report.failures == before.failures + misplaced.push(
                                    Failure::SealNoWitnessTx(txid),
                                )
                                &&& next.report.unresolved_txids == before.unresolved_txids.push(
                                    txid,
                                )
                            },
                            Ok(tx) => {
                                &&& next.report.failures == before.failures + misplaced
                                    + history.witness_failures(
                                    transition,
                                    bundle_id,
                                    anchored.anchor,
                                    tx@,
                                )
                                &&& next.report.unresolved_txids == before.unresolved_txids
                            },
                        }
                    }
                },
            }
        }),
{
    let next = history.check_anchor(transition, named, progress, replies);
    let before = progress.report;
    if history.anchored(transition.id) is Some && !progress.anchored.contains(transition.id) {
        let anchored = history.anchored(transition.id)->Some_0;
        let txid = anchored.anchor.parts().txid;
        let misplaced = if anchored.anchor.serves(history.genesis.contract_id) {
            Seq::<Failure>::empty()
        } else {
            seq![Failure::NotInAnchor(transition.id, txid)]
        };
        if replies[progress.asked.len() as int] is Err {
            assert(next.report.failures =~= before.failures + misplaced.push(
                Failure::SealNoWitnessTx(txid),
            ));
            assert(next.report.unresolved_txids =~= before.unresolved_txids.push(txid));
        } else {
            assert(next.report.unresolved_txids =~= before.unresolved_txids);
        }
        assert(next.report.warnings =~= before.warnings);
        assert(next.report.unmined_terminals =~= before.unmined_terminals);
    }
}

/// Visiting an operation of any kind checks it against the schema, then, as a transition, against
/// its anchor, and adds every failure in what it builds upon behind that, each time it is visited.
pub proof fn visit_adds(
    history: History,
    operation: Operation,
    named: Option<BundleId>,
    progress: Progress,
    replies: Seq<Reply>,
)
    ensures
        ({
            let next = history.visit(operation, named, progress, replies);
            let by_schema = history.check_schema(operation, progress);
            let checked = match operation {
                Operation::Transition(transition) => history.check_anchor(
                    transition,
                    named,
                    by_schema,
                    replies,
                ),
                Operation::Genesis(_) => by_schema,
                Operation::Extension(_) => by_schema,
            };
            &&& next.report.failures == checked.report.failures + history.parent_failures(operation)
            &&& next.report.warnings == checked.report.warnings
            &&& next.report.unresolved_txids == checked.report.unresolved_txids
            &&& next.report.unmined_terminals == checked.report.unmined_terminals
            &&& next.validated == checked.validated
            &&& next.anchored == checked.anchored
            &&& next.asked == checked.asked
        }),
{
}

/// Visits are made first come, first served: what an operation builds upon is visited behind all
/// that is waiting already, and every operation that is waiting is visited, be it visited before or
/// not. Only the first of all is named with a bundle.
pub proof fn walk_takes_turns(
    history: History,
    first: Operation,
    waiting: Seq<Operation>,
    visits: nat,
    named: Option<BundleId>,
    progress: Progress,
    replies: Seq<Reply>,
)
    ensures
        history.walk(seq![first] + waiting, visits + 1, named, progress, replies) == history.walk(
            waiting + history.parents(first),
            visits,
            None,
            history.visit(first, named, progress, replies),
            replies,
        ),
        history.walk(seq![first] + waiting, 0, named, progress, replies) == progress,
        history.walk(Seq::empty(), visits, named, progress, replies) == progress,
        history.ends_after(seq![first] + waiting, visits + 1) <==> history.ends_after(
            waiting + history.parents(first),
            visits,
        ),
        !history.ends_after(seq![first] + waiting, 0),
        history.ends_after(Seq::empty(), visits),
    decreases visits,
{
    let queue = seq![first] + waiting;
    assert(queue.drop_first() =~= waiting);
    assert(history.advance(queue) == waiting + history.parents(first));
    assert(history.queue_after(queue, visits + 1) == history.queue_after(
        history.advance(queue),
        visits,
    ));
    empty_stays(history, visits);
}

proof fn empty_stays(history: History, visits: nat)
    ensures
        history.queue_after(Seq::empty(), visits) == Seq::<Operation>::empty(),
    decreases visits,
{
    if visits > 0 {
        empty_stays(history, (visits - 1) as nat);
    }
}

proof fn walks_agree(
    history: History,
    queue: Seq<Operation>,
    visits: nat,
    more: nat,
    named: Option<BundleId>,
    progress: Progress,
    replies: Seq<Reply>,
)
    requires
        history.ends_after(queue, visits),
        history.ends_after(queue, more),
    ensures
        history.walk(queue, visits, named, progress, replies) == history.walk(
            queue,
            more,
            named,
            progress,
            replies,
        ),
    decreases visits,
{
    if queue.len() > 0 {
        walks_agree(
            history,
            history.advance(queue),
            (visits - 1) as nat,
            (more - 1) as nat,
            None,
            history.visit(queue[0], named, progress, replies),
            replies,
        );
    }
}

/// A branch is gone through to its end: it comes to what any number of visits comes to that leaves
/// nothing to visit, starting with the end alone, named with the bundle of its terminal.
pub proof fn branch_gone_through(
    history: History,
    transition: Transition,
    bundle_id: BundleId,
    visits: nat,
    progress: Progress,
    replies: Seq<Reply>,
)
    requires
        history.ends_after(seq![Operation::Transition(transition)], visits),
    ensures
        history.branch(transition, bundle_id, progress, replies) == history.walk(
            seq![Operation::Transition(transition)],
            visits,
            Some(bundle_id),
            progress,
            replies,
        ),
        history.finite(seq![Operation::Transition(transition)]),
{
    let queue = seq![Operation::Transition(transition)];
    let chosen = choose|visits: nat| history.ends_after(queue, visits);
    assert(history.ends_after(queue, chosen));
    walks_agree(history, queue, chosen, visits, Some(bundle_id), progress, replies);
}

proof fn branches_in_turn_from(
    history: History,
    ends: Seq<(Transition, BundleId)>,
    from: int,
    progress: Progress,
    replies: Seq<Reply>,
)
    requires
        0 <= from <= ends.len(),
    ensures
        history.branches(ends, from, progress, replies) == ends.skip(from).fold_left_alt(
            progress,
            |before: Progress, end: (Transition, BundleId)|
                history.branch(end.0, end.1, before, replies),
        ),
    decreases ends.len() - from,
{
    let f = |before: Progress, end: (Transition, BundleId)|
        history.branch(end.0, end.1, before, replies);
    let rest = ends.skip(from);
    if from < ends.len() {
        branches_in_turn_from(history, ends, from + 1, f(progress, ends[from]), replies);
        assert(rest.subrange(1, rest.len() as int) =~= ends.skip(from + 1));
        assert(rest[0] == ends[from]);
    }
}

/// The ends are gone through one by one and in their order, all of them, each with what was found
/// before it.
pub proof fn branches_in_turn(
    history: History,
    ends: Seq<(Transition, BundleId)>,
    progress: Progress,
    replies: Seq<Reply>,
)
    ensures
        history.branches(ends, 0, progress, replies) == ends.fold_left(
            progress,
            |before: Progress, end: (Transition, BundleId)|
                history.branch(end.0, end.1, before, replies),
        ),
{
    let f = |before: Progress, end: (Transition, BundleId)|
        history.branch(end.0, end.1, before, replies);
    branches_in_turn_from(history, ends, 0, progress, replies);
    assert(ends.skip(0) =~= ends);
    ends.lemma_fold_left_alt(progress, f);
}

proof fn forgiven_in_turn_from(
    history: History,
    ends: Seq<(Transition, BundleId)>,
    from: int,
    report: Report,
)
    requires
        0 <= from <= ends.len(),
    ensures
        history.forgive(ends, from, report) == ends.skip(from).fold_left_alt(
            report,
            |before: Report, end: (Transition, BundleId)|
                if history.anchored(end.0.id) is Some {
                    before.forgive(history.anchored(end.0.id)->Some_0.anchor.parts().txid)
                } else {
                    before
                },
        ),
    decreases ends.len() - from,
{
    let f = |before: Report, end: (Transition, BundleId)|
        if history.anchored(end.0.id) is Some {
            before.forgive(history.anchored(end.0.id)->Some_0.anchor.parts().txid)
        } else {
            before
        };
    let rest = ends.skip(from);
    if from < ends.len() {
        forgiven_in_turn_from(history, ends, from + 1, f(report, ends[from]));
        assert(rest.subrange(1, rest.len() as int) =~= ends.skip(from + 1));
        assert(rest[0] == ends[from]);
    }
}

/// The transaction of the anchor of every end that has one is taken for not mined yet, end by end
/// and in their order, and no other transaction is.
pub proof fn forgiven_in_turn(history: History, ends: Seq<(Transition, BundleId)>, report: Report)
    ensures
        history.forgive(ends, 0, report) == ends.fold_left(
            report,
            |before: Report, end: (Transition, BundleId)|
                if history.anchored(end.0.id) is Some {
                    before.forgive(history.anchored(end.0.id)->Some_0.anchor.parts().txid)
                } else {
                    before
                },
        ),
{
    let f = |before: Report, end: (Transition, BundleId)|
        if history.anchored(end.0.id) is Some {
            before.forgive(history.anchored(end.0.id)->Some_0.anchor.parts().txid)
        } else {
            before
        };
    forgiven_in_turn_from(history, ends, 0, report);
    assert(ends.skip(0) =~= ends);
    ends.lemma_fold_left_alt(report, f);
}

/// Of operations that were not validated, each is warned of, in their order, and the report is
/// otherwise left as it is.
pub proof fn excess_adds(history: History, validated: Set<OpId>, report: Report)
    ensures
        history.report_excess(validated, report) == (Report {
            warnings: report.warnings + history.op_ids.filter(
                |id: OpId| !validated.contains(id),
            ).map_values(|id: OpId| Warning::ExcessiveOperation(id)),
            ..report
        }),
{
    assert(outside(validated) =~= |id: OpId| !validated.contains(id));
}

/// Validation starts with what there is to report of the bundles and of the terminals, with what
/// the schema reports of itself behind it, part by part, and with nothing validated and nothing
/// asked for.
pub proof fn validation_starts(history: History)
    ensures
        ({
            let started = history.started();
            let ends = history.ends().report;
            let schema = history.schema_report;
            &&& started.report.failures == ends.failures + schema.failures
            &&& started.report.warnings == ends.warnings + schema.warnings
            &&& started.report.unresolved_txids == ends.unresolved_txids + schema.unresolved_txids
            &&& started.report.unmined_terminals == ends.unmined_terminals
                + schema.unmined_terminals
            &&& started.validated == Set::<OpId>::empty()
            &&& started.anchored == Set::<OpId>::empty()
            &&& started.asked == Seq::<Txid>::empty()
        }),
{
}

/// The genesis is checked against the schema, all that the schema reports of it is added, part by
/// part, and it counts as validated from then on.
pub proof fn genesis_adds(history: History, progress: Progress)
    ensures
        ({
            let next = history.found(progress);
            let report = (history.op_report)(Operation::Genesis(history.genesis));
            let before = progress.report;
            &&& next.validated == progress.validated.insert(history.genesis.id)
            &&& next.anchored == progress.anchored
            &&& next.asked == progress.asked
            &&& next.report.failures == before.failures + report.failures
            &&& next.report.warnings == before.warnings + report.warnings
            &&& next.report.unresolved_txids == before.unresolved_txids + report.unresolved_txids
            &&& next.report.unmined_terminals == before.unmined_terminals
                + report.unmined_terminals
        }),
{
}

/// Validation stops at a schema with failures and without transactions that could not be obtained,
/// and at a schema that is not that of the genesis, which is a failure. Otherwise the genesis is
/// checked, then all the ends with what they build upon; and only then are the transactions of the
/// ends taken for not mined yet, and the operations warned of that were not validated.
pub proof fn validation_goes_on(history: History, replies: Seq<Reply>)
    ensures
        ({
            let last = history.validation(replies);
            let started = history.started();
            let ends = history.ends().transitions;
            let visited = history.branches(ends, 0, history.found(started), replies);
            if history.schema_report.failures.len() > 0
                && history.schema_report.unresolved_txids.len() == 0 {
                last == started
            } else if history.schema_id != history.genesis.schema_id {
                &&& last.report.failures == started.report.failures.push(
                    Failure::SchemaMismatch {
                        expected: history.genesis.schema_id,
                        actual: history.schema_id,
                    },
                )
                &&& last.report.warnings == started.report.warnings
                &&& last.report.unresolved_txids == started.report.unresolved_txids
                &&& last.report.unmined_terminals == started.report.unmined_terminals
                &&& last.validated == started.validated
                &&& last.asked == started.asked
            } else {
                &&& last.report == history.report_excess(
                    visited.validated,
                    history.forgive(ends, 0, visited.report),
                )
                &&& last.validated == visited.validated
                &&& last.anchored == visited.anchored
                &&& last.asked == visited.asked
            }
        }),
{
}

/// The first visit of an operation adds every warning that the schema has of it, and no other.
pub proof fn visit_warns(
    history: History,
    operation: Operation,
    named: Option<BundleId>,
    progress: Progress,
    replies: Seq<Reply>,
    warning: Warning,
)
    requires
        !progress.validated.contains(operation.id()),
        (history.op_report)(operation).warnings.contains(warning),
    ensures
        history.visit(operation, named, progress, replies).report.warnings.contains(warning),
        history.visit(operation, named, progress, replies).report.warnings
            == progress.report.warnings + (history.op_report)(operation).warnings,
{
    let more = (history.op_report)(operation).warnings;
    let all = progress.report.warnings + more;
    visit_adds(history, operation, named, progress, replies);
    if operation is Transition {
        anchor_check_adds(
            history,
            operation->Transition_0,
            named,
            history.check_schema(operation, progress),
            replies,
        );
    }
    assert(all[progress.report.warnings.len() + more.index_of(warning)] == warning);
}

} // verus!
