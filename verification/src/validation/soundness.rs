//! What a report without failures says of a consignment.
use crate::contract::{History, Input, Operation, Redeemed, Transition};
use crate::ids::{BundleId, OpId, Txid};
use crate::validation::laws::{
    branches_extend, validated_iff_relevant, visit_extends, walk_extends,
};
use crate::validation::model::{Progress, Reply};
use crate::validation::counting::{parent_failures_plain, plain, witness_failures_plain};
use crate::validation::reporting::{forgiving_keeps, unobtained_at};
use crate::validation::status::{Failure, Report, Validity};
use crate::validation::validator::ancestry_finite;
use crate::validation::resolver::TxResolverError;
use crate::validation::witness::{first_seal_fault, Anchor, TapretError, Tx, TxModel};
use vstd::prelude::*;

verus! {

/// Whether there are no failures but those to obtain transactions that are not mined yet.
pub open spec fn tolerated(failures: Seq<Failure>, unmined: Set<Txid>) -> bool {
    forall|i: int|
        0 <= i < failures.len() ==> (#[trigger] failures[i] matches Failure::SealNoWitnessTx(txid)
            && unmined.contains(txid))
}

impl History {
    /// Whether an operation is the one that is known under its identifier.
    pub open spec fn known(self, operation: Operation) -> bool {
        self.operations.contains_key(operation.id()) && self.operations[operation.id()]
            == operation
    }

    /// Whether identifiers tell operations apart: every operation is known under its own
    /// identifier, and the genesis and the ends are the operations known under theirs.
    pub open spec fn coherent(self) -> bool {
        &&& forall|id: OpId| #[trigger]
            self.operations.contains_key(id) ==> self.operations[id].id() == id
        &&& self.operations.contains_key(self.genesis.id) ==> self.known(
            Operation::Genesis(self.genesis),
        )
        &&& forall|i: int|
            0 <= i < self.ends().transitions.len() ==> self.known(
                Operation::Transition((#[trigger] self.ends().transitions[i]).0),
            )
    }

    /// Whether a transition counts for one of a bundle: the bundle is the one that the transition
    /// is in, or the transition is an end and the bundle is that of its terminal.
    pub open spec fn counts_for(self, id: OpId, bundle_id: BundleId) -> bool {
        ||| self.bundle(id) == Some(bundle_id)
        ||| exists|i: int|
            0 <= i < self.ends().transitions.len() && (#[trigger] self.ends().transitions[i]).0.id
                == id && self.ends().transitions[i].1 == bundle_id
    }

    /// Whether a transaction commits to a transition by way of an anchor, and closes the seals
    /// that the transition spends: the seals are all known, the anchor makes a commitment out of
    /// the bundle, the transaction holds that commitment, and nothing is wrong with the seals.
    pub open spec fn committed(
        self,
        transition: Transition,
        bundle_id: BundleId,
        anchor: Anchor,
        tx: TxModel,
    ) -> bool {
        let opid = transition.id;
        let inputs = transition.inputs@;
        &&& self.input_failures(opid, inputs, 0).len() == 0
        &&& anchor.commitment(self.genesis.contract_id, bundle_id) matches Some(commitment)
            && anchor.found(commitment, tx) == Ok::<bool, TapretError>(true)
        &&& first_seal_fault(self.input_seals(opid, inputs, 0), 0, tx.inputs) is None
    }

    /// Whether a question to the resolver was about the transaction of the anchor of a
    /// transition, the transition counts for one of a bundle that the anchor makes a commitment
    /// out of, and the transaction that came back commits to the transition, or none came back
    /// as it is not mined yet.
    pub open spec fn answered(
        self,
        transition: Transition,
        bundle_id: BundleId,
        anchor: Anchor,
        question: Txid,
        reply: Reply,
        unmined: Set<Txid>,
    ) -> bool {
        &&& self.counts_for(transition.id, bundle_id)
        &&& question == anchor.parts().txid
        &&& anchor.commitment(self.genesis.contract_id, bundle_id) is Some
        &&& match reply {
            Ok(tx) => self.committed(transition, bundle_id, anchor, tx@),
            Err(_) => unmined.contains(anchor.parts().txid),
        }
    }

    /// Whether one of some questions to the resolver was about the transaction of the anchor of
    /// a transition, and its reply leaves nothing to report.
    pub open spec fn witnessed(
        self,
        transition: Transition,
        asked: Seq<Txid>,
        replies: Seq<Reply>,
        unmined: Set<Txid>,
    ) -> bool {
        self.anchor(transition.id) matches Some(anchor) && exists|bundle_id: BundleId, i: int|
            0 <= i < asked.len() && #[trigger] self.answered(
                transition,
                bundle_id,
                anchor,
                asked[i],
                replies[i],
                unmined,
            )
    }

    /// Whether an operation is in order: by the schema, in what it builds upon, and, as a
    /// transition, by its anchor and its witness transaction.
    pub open spec fn upheld(
        self,
        operation: Operation,
        asked: Seq<Txid>,
        replies: Seq<Reply>,
        unmined: Set<Txid>,
    ) -> bool {
        &&& tolerated((self.op_report)(operation).failures, unmined)
        &&& self.parent_failures(operation).len() == 0
        &&& operation matches Operation::Transition(transition) ==> self.witnessed(
            transition,
            asked,
            replies,
            unmined,
        )
    }

    /// Whether an operation is in order: by the schema, in what it builds upon, and, as a
    /// transition, by its anchor and by every reply to a question about its witness
    /// transaction, whatever bundle it counts for.
    pub open spec fn unexceptionable(
        self,
        operation: Operation,
        asked: Seq<Txid>,
        replies: Seq<Reply>,
        unmined: Set<Txid>,
    ) -> bool {
        &&& (self.op_report)(operation).failures.len() == 0
        &&& self.parent_failures(operation).len() == 0
        &&& operation matches Operation::Transition(transition) ==> {
            &&& self.anchor(transition.id) matches Some(anchor)
            &&& forall|bundle_id: BundleId, i: int|
                self.counts_for(transition.id, bundle_id) && 0 <= i < asked.len() && asked[i]
                    == anchor.parts().txid ==> #[trigger] self.answered(
                    transition,
                    bundle_id,
                    anchor,
                    asked[i],
                    replies[i],
                    unmined,
                )
        }
    }

    /// Whether the operations validated so far are in order, as far as they are known.
    spec fn sound(self, progress: Progress, replies: Seq<Reply>, unmined: Set<Txid>) -> bool {
        &&& forall|id: OpId| #[trigger]
            progress.validated.contains(id) && self.operations.contains_key(id) ==> tolerated(
                (self.op_report)(self.operations[id]).failures,
                unmined,
            )
        &&& forall|id: OpId| #[trigger]
            progress.anchored.contains(id) && self.operations.contains_key(id) ==> (
            self.operations[id] matches Operation::Transition(transition) ==> self.witnessed(
                transition,
                progress.asked,
                replies,
                unmined,
            ))
    }
}

proof fn tolerated_parts(failures: Seq<Failure>, more: Seq<Failure>, unmined: Set<Txid>)
    requires
        tolerated(failures + more, unmined),
    ensures
        tolerated(failures, unmined),
        tolerated(more, unmined),
{
    assert forall|i: int| 0 <= i < failures.len() implies (
    #[trigger] failures[i] matches Failure::SealNoWitnessTx(txid) && unmined.contains(txid)) by {
        assert(failures[i] == (failures + more)[i]);
    }
    assert forall|i: int| 0 <= i < more.len() implies (
    #[trigger] more[i] matches Failure::SealNoWitnessTx(txid) && unmined.contains(txid)) by {
        assert(more[i] == (failures + more)[failures.len() + i]);
    }
}

proof fn tolerated_prefix(failures: Seq<Failure>, longer: Seq<Failure>, unmined: Set<Txid>)
    requires
        failures.is_prefix_of(longer),
        tolerated(longer, unmined),
    ensures
        tolerated(failures, unmined),
{
    assert forall|i: int| 0 <= i < failures.len() implies (
    #[trigger] failures[i] matches Failure::SealNoWitnessTx(txid) && unmined.contains(txid)) by {
        assert(failures[i] == longer[i]);
    }
}

/// A transition that is committed to with the anchor of its bundle, in the witness transaction
/// that the resolver gives, passes the check of its anchor with nothing to report. An end is taken
/// with the bundle of its terminal, and any other transition with the bundle that it is in,
/// whatever bundle the end is in that it was reached from.
pub proof fn committed_adds_nothing(
    history: History,
    transition: Transition,
    named: Option<BundleId>,
    progress: Progress,
    replies: Seq<Reply>,
)
    requires
        history.anchored(transition.id) matches Some(anchored)
            && replies[progress.asked.len() as int] matches Ok(tx) && history.committed(
            transition,
            match named {
                Some(bundle_id) => bundle_id,
                None => anchored.bundle.bundle_id,
            },
            anchored.anchor,
            tx@,
        ),
    ensures
        history.check_anchor(transition, named, progress, replies).report == progress.report,
{
    let anchored = history.anchored(transition.id)->Some_0;
    let bundle_id = match named {
        Some(bundle_id) => bundle_id,
        None => anchored.bundle.bundle_id,
    };
    let reply = replies[progress.asked.len() as int];
    no_witness_failures_iff(history, transition, bundle_id, anchored.anchor, reply->Ok_0@);
    let report = history.transition_report(transition, bundle_id, anchored.anchor, reply);
    assert(report =~= Report::empty());
    assert(progress.report.plus(report) =~= progress.report);
}

/// Failures to obtain transactions aside, no failure is tolerated.
proof fn plain_not_tolerated(failures: Seq<Failure>, unmined: Set<Txid>)
    requires
        plain(failures),
        tolerated(failures, unmined),
    ensures
        failures.len() == 0,
{
    if failures.len() > 0 {
        assert(!(failures[0] is SealNoWitnessTx));
    }
}

/// A witness transaction leaves nothing to report of a transition just where it commits to the
/// transition and closes the seals that the transition spends.
pub proof fn no_witness_failures_iff(
    history: History,
    transition: Transition,
    bundle_id: BundleId,
    anchor: Anchor,
    tx: TxModel,
)
    ensures
        history.witness_failures(transition, bundle_id, anchor, tx).len() == 0
            <==> history.committed(transition, bundle_id, anchor, tx),
{
}

proof fn input_parents_known(history: History, inputs: Seq<Input>, from: int, i: int)
    requires
        history.coherent(),
        0 <= i < history.input_parents(inputs, from).len(),
    ensures
        history.known(history.input_parents(inputs, from)[i]),
    decreases inputs.len() - from,
{
    if 0 <= from < inputs.len() {
        if !history.operations.contains_key(inputs[from].prev_out.op) {
            input_parents_known(history, inputs, from + 1, i);
        } else if i > 0 {
            input_parents_known(history, inputs, from + 1, i - 1);
        }
    }
}

proof fn valency_parents_known(
    history: History,
    opid: OpId,
    redeemed: Seq<Redeemed>,
    from: int,
    i: int,
)
    requires
        history.coherent(),
        0 <= i < history.valency_parents(opid, redeemed, from).len(),
    ensures
        history.known(history.valency_parents(opid, redeemed, from)[i]),
    decreases redeemed.len() - from,
{
    if 0 <= from < redeemed.len() {
        if history.redeemed_of(opid, redeemed[from]) is Err {
            valency_parents_known(history, opid, redeemed, from + 1, i);
        } else if i > 0 {
            valency_parents_known(history, opid, redeemed, from + 1, i - 1);
        }
    }
}

proof fn parents_known(history: History, operation: Operation, i: int)
    requires
        history.coherent(),
        0 <= i < history.parents(operation).len(),
    ensures
        history.known(history.parents(operation)[i]),
{
    match operation {
        Operation::Genesis(_) => {},
        Operation::Transition(transition) => {
            input_parents_known(history, transition.inputs@, 0, i);
        },
        Operation::Extension(extension) => {
            valency_parents_known(history, extension.id, extension.redeemed@, 0, i);
        },
    }
}

proof fn answered_is_witnessed(
    history: History,
    transition: Transition,
    bundle_id: BundleId,
    asked: Seq<Txid>,
    replies: Seq<Reply>,
    i: int,
    unmined: Set<Txid>,
)
    requires
        0 <= i < asked.len(),
        history.anchor(transition.id) matches Some(anchor) && history.answered(
            transition,
            bundle_id,
            anchor,
            asked[i],
            replies[i],
            unmined,
        ),
    ensures
        history.witnessed(transition, asked, replies, unmined),
{
}

proof fn witnessed_still(
    history: History,
    transition: Transition,
    asked: Seq<Txid>,
    longer: Seq<Txid>,
    replies: Seq<Reply>,
    unmined: Set<Txid>,
)
    requires
        asked.is_prefix_of(longer),
        history.witnessed(transition, asked, replies, unmined),
    ensures
        history.witnessed(transition, longer, replies, unmined),
{
    let anchor = history.anchor(transition.id)->Some_0;
    let (bundle_id, i) = choose|bundle_id: BundleId, i: int|
        0 <= i < asked.len() && #[trigger] history.answered(
            transition,
            bundle_id,
            anchor,
            asked[i],
            replies[i],
            unmined,
        );
    assert(longer[i] == asked[i]);
    assert(history.answered(transition, bundle_id, anchor, longer[i], replies[i], unmined));
}

proof fn visit_sound(
    history: History,
    operation: Operation,
    named: Option<BundleId>,
    progress: Progress,
    replies: Seq<Reply>,
    unmined: Set<Txid>,
)
    requires
        named matches Some(bundle_id) ==> history.counts_for(operation.id(), bundle_id),
        history.known(operation),
        history.sound(progress, replies, unmined),
        tolerated(
            history.visit(operation, named, progress, replies).report.failures,
            unmined,
        ),
    ensures
        history.sound(
            history.visit(operation, named, progress, replies),
            replies,
            unmined,
        ),
        history.parent_failures(operation).len() == 0,
        operation is Transition ==> history.visit(
            operation,
            named,
            progress,
            replies,
        ).anchored.contains(operation.id()),
{
    let next = history.visit(operation, named, progress, replies);
    let checked = history.check_schema(operation, progress);
    let anchored = match operation {
        Operation::Transition(transition) => history.check_anchor(
            transition,
            named,
            checked,
            replies,
        ),
        _ => checked,
    };
    tolerated_parts(anchored.report.failures, history.parent_failures(operation), unmined);
    parent_failures_plain(history, operation);
    plain_not_tolerated(history.parent_failures(operation), unmined);
    tolerated_prefix(checked.report.failures, anchored.report.failures, unmined);
    if !progress.validated.contains(operation.id()) {
        tolerated_parts(
            progress.report.failures,
            (history.op_report)(operation).failures,
            unmined,
        );
    }
    if let Operation::Transition(transition) = operation {
        match history.anchored(transition.id) {
            None => {
                assert(anchored.report.failures.last() is NotAnchored);
            },
            Some(found) => if !checked.anchored.contains(transition.id) {
                let anchor = found.anchor;
                let bundle_id = match named {
                    Some(bundle_id) => bundle_id,
                    None => found.bundle.bundle_id,
                };
                let txid = anchor.parts().txid;
                let commitment = anchor.commitment(history.genesis.contract_id, bundle_id);
                let uncommitted = checked.fail(Failure::NotInAnchor(transition.id, txid));
                let committed = if commitment is Some {
                    checked
                } else {
                    uncommitted
                };
                let i = committed.asked.len() as int;
                let report = history.transition_report(transition, bundle_id, anchor, replies[i]);
                assert(anchored.report.failures == committed.report.failures + report.failures);
                tolerated_parts(committed.report.failures, report.failures, unmined);
                if commitment is None {
                    assert(uncommitted.report.failures.last() is NotInAnchor);
                }
                match replies[i] {
                    Ok(tx) => {
                        let failures = history.witness_failures(
                            transition,
                            bundle_id,
                            anchor,
                            tx@,
                        );
                        assert(report.failures =~= failures);
                        witness_failures_plain(history, transition, bundle_id, anchor, tx@);
                        plain_not_tolerated(failures, unmined);
                        no_witness_failures_iff(history, transition, bundle_id, anchor, tx@);
                    },
                    Err(_) => {
                        assert(report.failures[0] == Failure::SealNoWitnessTx(txid));
                    },
                }
                assert(anchored.asked[i] == txid);
                assert(history.answered(
                    transition,
                    bundle_id,
                    anchor,
                    anchored.asked[i],
                    replies[i],
                    unmined,
                ));
                answered_is_witnessed(
                    history,
                    transition,
                    bundle_id,
                    anchored.asked,
                    replies,
                    i,
                    unmined,
                );
            },
        }
    }
    assert forall|id: OpId| #[trigger]
        next.anchored.contains(id) && history.operations.contains_key(id) implies (
    history.operations[id] matches Operation::Transition(transition) ==> history.witnessed(
        transition,
        next.asked,
        replies,
        unmined,
    )) by {
        if progress.anchored.contains(id) {
            if let Operation::Transition(transition) = history.operations[id] {
                witnessed_still(
                    history,
                    transition,
                    progress.asked,
                    next.asked,
                    replies,
                    unmined,
                );
            }
        }
    }
}

proof fn walk_sound(
    history: History,
    queue: Seq<Operation>,
    visits: nat,
    named: Option<BundleId>,
    progress: Progress,
    replies: Seq<Reply>,
    unmined: Set<Txid>,
)
    requires
        history.coherent(),
        named matches Some(bundle_id) ==> queue.len() > 0 && history.counts_for(
            queue[0].id(),
            bundle_id,
        ),
        forall|i: int| 0 <= i < queue.len() ==> history.known(#[trigger] queue[i]),
        history.sound(progress, replies, unmined),
        tolerated(
            history.walk(queue, visits, named, progress, replies).report.failures,
            unmined,
        ),
    ensures
        history.sound(
            history.walk(queue, visits, named, progress, replies),
            replies,
            unmined,
        ),
    decreases visits,
{
    if visits > 0 && queue.len() > 0 {
        let rest = (visits - 1) as nat;
        let ahead = history.advance(queue);
        let next = history.visit(queue[0], named, progress, replies);
        let last = history.walk(ahead, rest, None, next, replies);
        walk_extends(history, ahead, rest, None, next, replies);
        tolerated_prefix(next.report.failures, last.report.failures, unmined);
        visit_sound(history, queue[0], named, progress, replies, unmined);
        ahead_known(history, queue);
        walk_sound(history, ahead, rest, None, next, replies, unmined);
    }
}

pub(crate) proof fn ahead_known(history: History, queue: Seq<Operation>)
    requires
        history.coherent(),
        queue.len() > 0,
        forall|i: int| 0 <= i < queue.len() ==> history.known(#[trigger] queue[i]),
    ensures
        forall|i: int|
            0 <= i < history.advance(queue).len() ==> history.known(
                #[trigger] history.advance(queue)[i],
            ),
{
    let ahead = history.advance(queue);
    assert forall|i: int| 0 <= i < ahead.len() implies history.known(#[trigger] ahead[i]) by {
        if i < queue.len() - 1 {
            assert(ahead[i] == queue[i + 1]);
        } else {
            parents_known(history, queue[0], i - (queue.len() - 1));
        }
    }
}

/// What a visit finds of an ancestor stands at the end of a walk.
proof fn walk_upholds(
    history: History,
    queue: Seq<Operation>,
    visits: nat,
    named: Option<BundleId>,
    progress: Progress,
    replies: Seq<Reply>,
    unmined: Set<Txid>,
    i: int,
    ancestor: Operation,
    steps: nat,
)
    requires
        history.coherent(),
        named matches Some(bundle_id) ==> queue.len() > 0 && history.counts_for(
            queue[0].id(),
            bundle_id,
        ),
        history.ends_after(queue, visits),
        forall|i: int| 0 <= i < queue.len() ==> history.known(#[trigger] queue[i]),
        history.sound(progress, replies, unmined),
        tolerated(
            history.walk(queue, visits, named, progress, replies).report.failures,
            unmined,
        ),
        0 <= i < queue.len(),
        history.descends(queue[i], ancestor, steps),
    ensures
        history.known(ancestor),
        history.parent_failures(ancestor).len() == 0,
        ancestor is Transition ==> history.walk(
            queue,
            visits,
            named,
            progress,
            replies,
        ).anchored.contains(ancestor.id()),
    decreases visits,
{
    let rest = (visits - 1) as nat;
    let ahead = history.advance(queue);
    let next = history.visit(queue[0], named, progress, replies);
    let last = history.walk(ahead, rest, None, next, replies);
    walk_extends(history, ahead, rest, None, next, replies);
    tolerated_prefix(next.report.failures, last.report.failures, unmined);
    visit_sound(history, queue[0], named, progress, replies, unmined);
    ahead_known(history, queue);
    if i > 0 {
        assert(ahead[i - 1] == queue[i]);
        walk_upholds(
            history,
            ahead,
            rest,
            None,
            next,
            replies,
            unmined,
            i - 1,
            ancestor,
            steps,
        );
    } else if steps > 0 {
        let parents = history.parents(queue[0]);
        let fewer = (steps - 1) as nat;
        let j = choose|j: int|
            0 <= j < parents.len() && history.descends(#[trigger] parents[j], ancestor, fewer);
        let k = queue.len() - 1 + j;
        assert(ahead[k] == parents[j]);
        walk_upholds(
            history,
            ahead,
            rest,
            None,
            next,
            replies,
            unmined,
            k,
            ancestor,
            fewer,
        );
    }
}

proof fn branches_sound(
    history: History,
    from: int,
    progress: Progress,
    replies: Seq<Reply>,
    unmined: Set<Txid>,
)
    requires
        history.coherent(),
        0 <= from,
        history.sound(progress, replies, unmined),
        tolerated(
            history.branches(
                history.ends().transitions,
                from,
                progress,
                replies,
            ).report.failures,
            unmined,
        ),
    ensures
        history.sound(
            history.branches(history.ends().transitions, from, progress, replies),
            replies,
            unmined,
        ),
    decreases history.ends().transitions.len() - from,
{
    let ends = history.ends().transitions;
    if from < ends.len() {
        let transition = ends[from].0;
        let queue = seq![Operation::Transition(transition)];
        let visits = choose|visits: nat| history.ends_after(queue, visits);
        let named = Some(ends[from].1);
        let next = history.branch(transition, ends[from].1, progress, replies);
        let last = history.branches(ends, from + 1, next, replies);
        branches_extend(history, ends, from + 1, next, replies);
        tolerated_prefix(next.report.failures, last.report.failures, unmined);
        walk_sound(history, queue, visits, named, progress, replies, unmined);
        branches_sound(history, from + 1, next, replies, unmined);
    }
}

proof fn branches_uphold(
    history: History,
    from: int,
    progress: Progress,
    replies: Seq<Reply>,
    unmined: Set<Txid>,
    end: int,
    ancestor: Operation,
)
    requires
        history.coherent(),
        ancestry_finite(history),
        history.sound(progress, replies, unmined),
        tolerated(
            history.branches(
                history.ends().transitions,
                from,
                progress,
                replies,
            ).report.failures,
            unmined,
        ),
        0 <= from <= end < history.ends().transitions.len(),
        history.reaches(
            seq![Operation::Transition(history.ends().transitions[end].0)],
            ancestor,
        ),
    ensures
        history.known(ancestor),
        history.parent_failures(ancestor).len() == 0,
        ancestor is Transition ==> history.branches(
            history.ends().transitions,
            from,
            progress,
            replies,
        ).anchored.contains(ancestor.id()),
    decreases end - from,
{
    let ends = history.ends().transitions;
    let transition = ends[from].0;
    let queue = seq![Operation::Transition(transition)];
    let visits = choose|visits: nat| history.ends_after(queue, visits);
    let named = Some(ends[from].1);
    let next = history.branch(transition, ends[from].1, progress, replies);
    let last = history.branches(ends, from + 1, next, replies);
    branches_extend(history, ends, from + 1, next, replies);
    tolerated_prefix(next.report.failures, last.report.failures, unmined);
    walk_sound(history, queue, visits, named, progress, replies, unmined);
    if from < end {
        branches_uphold(history, from + 1, next, replies, unmined, end, ancestor);
    } else {
        let (i, steps) = choose|i: int, steps: nat|
            0 <= i < queue.len() && #[trigger] history.descends(queue[i], ancestor, steps);
        walk_upholds(
            history,
            queue,
            visits,
            named,
            progress,
            replies,
            unmined,
            i,
            ancestor,
            steps,
        );
    }
}

/// The failures that forgiving the ends takes away are those to obtain the transactions that
/// are then among the unmined ones.
proof fn forgiven_tolerated(
    history: History,
    ends: Seq<(Transition, BundleId)>,
    from: int,
    report: Report,
)
    requires
        history.forgive(ends, from, report).failures.len() == 0,
    ensures
        tolerated(
            report.failures,
            history.forgive(ends, from, report).unmined_terminals.to_set(),
        ),
    decreases ends.len() - from,
{
    if 0 <= from < ends.len() {
        let last = history.forgive(ends, from, report);
        let unmined = last.unmined_terminals.to_set();
        match history.anchor(ends[from].0.id) {
            Some(anchor) => {
                let txid = anchor.parts().txid;
                let next = report.forgive(txid);
                forgiven_tolerated(history, ends, from + 1, next);
                forgiving_keeps(history, ends, from + 1, next);
                unobtained_at(report.failures, txid, 0);
                if let Some(pos) = Report::find_unobtained(report.failures, txid, 0) {
                    let last_index = next.unmined_terminals.len() - 1;
                    assert(next.unmined_terminals[last_index] == txid);
                    assert(last.unmined_terminals[last_index] == txid);
                    assert forall|i: int| 0 <= i < report.failures.len() implies (
                    #[trigger] report.failures[i] matches Failure::SealNoWitnessTx(txid)
                        && unmined.contains(txid)) by {
                        if i < pos {
                            assert(next.failures[i] == report.failures[i]);
                        } else if i > pos {
                            assert(next.failures[i - 1] == report.failures[i]);
                        }
                    }
                }
            },
            None => {
                forgiven_tolerated(history, ends, from + 1, report);
            },
        }
    }
}

/// Where validation reports no failures, the schema is that of the genesis and is in order, so
/// is the genesis, and so are the ends and all of their ancestors: each is in order by the
/// schema, each refers to what is there, and each transition among them has an anchor, which
/// makes a commitment out of the bundle of the transition, and the witness transaction of which
/// was given by the resolver and holds that commitment, unless it is among the unmined ones.
pub proof fn no_failures_upheld(history: History, replies: Seq<Reply>, ancestor: Operation)
    requires
        history.coherent(),
        ancestry_finite(history),
        history.validation(replies).report.failures.len() == 0,
        history.ancestral(ancestor),
    ensures
        history.schema_id == history.genesis.schema_id,
        ({
            let last = history.validation(replies);
            let unmined = last.report.unmined_terminals.to_set();
            &&& tolerated(history.schema_report.failures, unmined)
            &&& tolerated(
                (history.op_report)(Operation::Genesis(history.genesis)).failures,
                unmined,
            )
            &&& history.upheld(ancestor, last.asked, replies, unmined)
        }),
{
    let last = history.validation(replies);
    let unmined = last.report.unmined_terminals.to_set();
    let ends = history.ends().transitions;
    let started = history.started();
    let founded = history.found(started);
    let visited = history.branches(ends, 0, founded, replies);
    branches_extend(history, ends, 0, founded, replies);
    forgiven_tolerated(history, ends, 0, visited.report);
    tolerated_prefix(founded.report.failures, visited.report.failures, unmined);
    tolerated_parts(
        started.report.failures,
        (history.op_report)(Operation::Genesis(history.genesis)).failures,
        unmined,
    );
    tolerated_parts(
        history.ends().report.failures,
        history.schema_report.failures,
        unmined,
    );
    assert(history.sound(founded, replies, unmined));
    branches_sound(history, 0, founded, replies, unmined);
    let end = choose|end: int|
        0 <= end < ends.len() && history.reaches(
            seq![Operation::Transition((#[trigger] ends[end]).0)],
            ancestor,
        );
    branches_uphold(history, 0, founded, replies, unmined, end, ancestor);
    validated_iff_relevant(history, replies, ancestor.id());
    assert(history.relevant(ancestor.id()));
    assert(visited.validated.contains(ancestor.id()));
}

/// In a consignment that is reported as valid every end and every ancestor of one is in order,
/// with no exception.
pub proof fn valid_upheld(history: History, replies: Seq<Reply>, ancestor: Operation)
    requires
        history.coherent(),
        ancestry_finite(history),
        history.validation(replies).report.validity() == Validity::Valid,
        history.ancestral(ancestor),
    ensures
        (history.op_report)(ancestor).failures.len() == 0,
        history.upheld(ancestor, history.validation(replies).asked, replies, Set::empty()),
{
    let unmined = history.validation(replies).report.unmined_terminals.to_set();
    no_failures_upheld(history, replies, ancestor);
    assert(unmined =~= Set::empty());
    let failures = (history.op_report)(ancestor).failures;
    if failures.len() > 0 {
        assert(failures[0] is SealNoWitnessTx);
    }
}

/// A consignment that is reported as valid is committed to in the transaction graph: for every
/// transition that is an end or an ancestor of one, the resolver was asked for the transaction of
/// the anchor of the transition, and gave a transaction that holds the commitment which the anchor
/// makes out of the bundle of the transition under the contract, and that spends the outputs of
/// the seals which the transition closes. The bundle is the one that the transition is in, which
/// comes with the anchor; for an end it may be the one that its terminal names instead, where
/// these two differ.
pub proof fn valid_committed(history: History, replies: Seq<Reply>, transition: Transition)
    requires
        history.coherent(),
        ancestry_finite(history),
        history.validation(replies).report.validity() == Validity::Valid,
        history.ancestral(Operation::Transition(transition)),
    ensures
        history.anchor(transition.id) matches Some(anchor) && exists|
            bundle_id: BundleId,
            i: int,
            tx: Tx,
        |
            {
                let asked = history.validation(replies).asked;
                let seals = history.input_seals(transition.id, transition.inputs@, 0);
                &&& #[trigger] history.counts_for(transition.id, bundle_id)
                &&& 0 <= i < asked.len()
                &&& asked[i] == anchor.parts().txid
                &&& #[trigger] replies[i] == Ok::<Tx, TxResolverError>(tx)
                &&& anchor.commitment(
                    history.genesis.contract_id,
                    bundle_id,
                ) matches Some(commitment) && anchor.found(commitment, #[trigger] tx@) == Ok::<
                    bool,
                    TapretError,
                >(true)
                &&& first_seal_fault(seals, 0, tx@.inputs) is None
            },
        history.input_failures(transition.id, transition.inputs@, 0).len() == 0,
{
    let asked = history.validation(replies).asked;
    valid_upheld(history, replies, Operation::Transition(transition));
    let anchor = history.anchor(transition.id)->Some_0;
    let (bundle_id, i) = choose|bundle_id: BundleId, i: int|
        0 <= i < asked.len() && #[trigger] history.answered(
            transition,
            bundle_id,
            anchor,
            asked[i],
            replies[i],
            Set::empty(),
        );
    let tx = replies[i]->Ok_0;
    assert(replies[i] == Ok::<Tx, TxResolverError>(tx));
    assert(history.committed(transition, bundle_id, anchor, tx@));
    assert(history.counts_for(transition.id, bundle_id));
}

impl History {
    /// Whether what the schema reports of the operations validated so far is in the report, as
    /// far as they are known.
    spec fn recorded(self, progress: Progress) -> bool {
        forall|id: OpId, failure: Failure|
            progress.validated.contains(id) && self.operations.contains_key(id) && (
            #[trigger] (self.op_report)(self.operations[id]).failures.contains(failure))
                ==> progress.report.failures.contains(failure)
    }
}

proof fn visit_records(
    history: History,
    operation: Operation,
    named: Option<BundleId>,
    progress: Progress,
    replies: Seq<Reply>,
)
    requires
        history.known(operation),
        history.recorded(progress),
    ensures
        history.recorded(history.visit(operation, named, progress, replies)),
{
    let next = history.visit(operation, named, progress, replies);
    let checked = history.check_schema(operation, progress);
    visit_extends(history, operation, named, progress, replies);
    visit_extends(history, operation, named, checked, replies);
    assert(history.visit(operation, named, checked, replies) == next);
    assert forall|id: OpId, failure: Failure|
        next.validated.contains(id) && history.operations.contains_key(id) && (
        #[trigger] (history.op_report)(history.operations[id]).failures.contains(
            failure,
        )) implies next.report.failures.contains(failure) by {
        if progress.validated.contains(id) {
            let f = progress.report.failures.index_of(failure);
            assert(next.report.failures[f] == failure);
        } else {
            let reported = (history.op_report)(operation).failures;
            let f = progress.report.failures.len() + reported.index_of(failure);
            assert(checked.report.failures[f] == failure);
            assert(next.report.failures[f] == failure);
        }
    }
}

proof fn walk_records(
    history: History,
    queue: Seq<Operation>,
    visits: nat,
    named: Option<BundleId>,
    progress: Progress,
    replies: Seq<Reply>,
)
    requires
        history.coherent(),
        forall|i: int| 0 <= i < queue.len() ==> history.known(#[trigger] queue[i]),
        history.recorded(progress),
    ensures
        history.recorded(history.walk(queue, visits, named, progress, replies)),
    decreases visits,
{
    if visits > 0 && queue.len() > 0 {
        let next = history.visit(queue[0], named, progress, replies);
        visit_records(history, queue[0], named, progress, replies);
        ahead_known(history, queue);
        walk_records(history, history.advance(queue), (visits - 1) as nat, None, next, replies);
    }
}

proof fn branches_record(history: History, from: int, progress: Progress, replies: Seq<Reply>)
    requires
        history.coherent(),
        0 <= from,
        history.recorded(progress),
    ensures
        history.recorded(
            history.branches(history.ends().transitions, from, progress, replies),
        ),
    decreases history.ends().transitions.len() - from,
{
    let ends = history.ends().transitions;
    if from < ends.len() {
        let queue = seq![Operation::Transition(ends[from].0)];
        let visits = choose|visits: nat| history.ends_after(queue, visits);
        let named = Some(ends[from].1);
        walk_records(history, queue, visits, named, progress, replies);
        branches_record(
            history,
            from + 1,
            history.branch(ends[from].0, ends[from].1, progress, replies),
            replies,
        );
    }
}

/// Every failure that the schema reports of an end or of an ancestor of one is in the report, as
/// far as it is no failure to obtain a transaction.
pub proof fn schema_failures_reported(
    history: History,
    replies: Seq<Reply>,
    ancestor: Operation,
    failure: Failure,
)
    requires
        history.coherent(),
        history.goes_on(),
        ancestry_finite(history),
        history.ancestral(ancestor),
        (history.op_report)(ancestor).failures.contains(failure),
        !(failure is SealNoWitnessTx),
    ensures
        history.validation(replies).report.failures.contains(failure),
{
    let ends = history.ends().transitions;
    let started = history.started();
    let founded = history.found(started);
    let visited = history.branches(ends, 0, founded, replies);
    let genesis = Operation::Genesis(history.genesis);
    assert forall|id: OpId, failure: Failure|
        founded.validated.contains(id) && history.operations.contains_key(id) && (
        #[trigger] (history.op_report)(history.operations[id]).failures.contains(
            failure,
        )) implies founded.report.failures.contains(failure) by {
        let reported = (history.op_report)(genesis).failures;
        let f = started.report.failures.len() + reported.index_of(failure);
        assert(founded.report.failures[f] == failure);
    }
    branches_record(history, 0, founded, replies);
    ancestral_known(history, ancestor);
    validated_iff_relevant(history, replies, ancestor.id());
    assert(history.relevant(ancestor.id()));
    assert(visited.validated.contains(ancestor.id()));
    assert(visited.report.failures.contains(failure));
    forgiving_keeps(history, ends, 0, visited.report);
    let forgiven = history.forgive(ends, 0, visited.report);
    assert(history.validation(replies).report.failures == forgiven.failures);
}

proof fn descends_known(
    history: History,
    operation: Operation,
    ancestor: Operation,
    steps: nat,
)
    requires
        history.coherent(),
        history.known(operation),
        history.descends(operation, ancestor, steps),
    ensures
        history.known(ancestor),
    decreases steps,
{
    if steps > 0 {
        let parents = history.parents(operation);
        let fewer = (steps - 1) as nat;
        let j = choose|j: int|
            0 <= j < parents.len() && history.descends(#[trigger] parents[j], ancestor, fewer);
        parents_known(history, operation, j);
        descends_known(history, parents[j], ancestor, fewer);
    }
}

proof fn ancestral_known(history: History, ancestor: Operation)
    requires
        history.coherent(),
        history.ancestral(ancestor),
    ensures
        history.known(ancestor),
{
    let ends = history.ends().transitions;
    let end = choose|end: int|
        0 <= end < ends.len() && history.reaches(
            seq![Operation::Transition((#[trigger] ends[end]).0)],
            ancestor,
        );
    let queue = seq![Operation::Transition(ends[end].0)];
    let (i, steps) = choose|i: int, steps: nat|
        0 <= i < queue.len() && #[trigger] history.descends(queue[i], ancestor, steps);
    descends_known(history, queue[i], ancestor, steps);
}

} // verus!
