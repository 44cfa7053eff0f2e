//! What validation reports, as a function of what a consignment holds and of what the
//! resolver replies.
use crate::contract::{
    outside, AnchoredBundle, History, Input, Operation, Redeemed, Transition,
};
use crate::ids::{BundleId, OpId, SecretSeal, Txid};
use crate::validation::resolver::TxResolverError;
use crate::validation::status::{Failure, Report, Validity, Warning};
use crate::validation::witness::{Anchor, AnchorError, Seal, SealError, Tx, TxModel};
use vstd::prelude::*;

verus! {

/// Reply of a resolver.
pub type Reply = Result<Tx, TxResolverError>;

/// Ends of a history.
#[verifier::ext_equal]
pub struct Ends {
    /// What there is to report of them.
    pub report: Report,
    /// Transitions that end the history, each with its bundle.
    pub transitions: Seq<(Transition, BundleId)>,
}

/// State of validation.
#[verifier::ext_equal]
pub struct Progress {
    /// What was reported so far.
    pub report: Report,
    /// Operations that were checked against the schema.
    pub validated: Set<OpId>,
    /// Transitions that were checked against their anchors.
    pub anchored: Set<OpId>,
    /// Transactions that the resolver was asked for, in turn.
    pub asked: Seq<Txid>,
}

impl Progress {
    /// One failure more.
    pub open spec fn fail(self, failure: Failure) -> Progress {
        Progress { report: self.report.fail(failure), ..self }
    }

    /// Some failures more.
    pub open spec fn fail_all(self, failures: Seq<Failure>) -> Progress {
        Progress { report: self.report.fail_all(failures), ..self }
    }
}

/// Whether a transition is among the ends found so far.
pub open spec fn is_end(ends: Seq<(Transition, BundleId)>, id: OpId) -> bool {
    exists|i: int| 0 <= i < ends.len() && (#[trigger] ends[i]).0.id == id
}

impl Ends {
    /// The ends with a transition of a terminal taken in.
    pub open spec fn note(
        self,
        transition: Transition,
        bundle_id: BundleId,
        seal: SecretSeal,
    ) -> Ends {
        let report = if transition.conceals(seal) {
            self.report
        } else {
            self.report.warn(Warning::TerminalSealAbsent(transition.id, seal))
        };
        if is_end(self.transitions, transition.id) {
            Ends {
                report: report.warn(Warning::TerminalDuplication(transition.id, seal)),
                ..self
            }
        } else {
            Ends { report, transitions: self.transitions.push((transition, bundle_id)) }
        }
    }

    /// The ends with the transitions of a terminal from an index on taken in.
    pub open spec fn note_all(
        self,
        transitions: Seq<Transition>,
        from: int,
        bundle_id: BundleId,
        seal: SecretSeal,
    ) -> Ends
        decreases transitions.len() - from,
    {
        if from < 0 || from >= transitions.len() {
            self
        } else {
            self.note(transitions[from], bundle_id, seal).note_all(
                transitions,
                from + 1,
                bundle_id,
                seal,
            )
        }
    }

    /// The ends with the terminals of a history from an index on taken in.
    pub open spec fn note_terminals(self, history: History, from: int) -> Ends
        decreases history.terminals.len() - from,
    {
        if from < 0 || from >= history.terminals.len() {
            self
        } else {
            let (bundle_id, seal) = history.terminals[from];
            let next = if history.bundled.contains_key(bundle_id) {
                self.note_all(history.bundled[bundle_id], 0, bundle_id, seal)
            } else {
                Ends { report: self.report.fail(Failure::BundleInvalid(bundle_id)), ..self }
            };
            next.note_terminals(history, from + 1)
        }
    }
}

/// Failures of the bundles from an index on that are inconsistent.
pub open spec fn bundle_failures(bundles: Seq<AnchoredBundle>, from: int) -> Seq<Failure>
    decreases bundles.len() - from,
{
    if from < 0 || from >= bundles.len() {
        Seq::empty()
    } else if bundles[from].bundle.consistent {
        bundle_failures(bundles, from + 1)
    } else {
        seq![Failure::BundleInvalid(bundles[from].bundle.bundle_id)] + bundle_failures(
            bundles,
            from + 1,
        )
    }
}

/// Last of the first `upto` bundles that reveals a transition, with its anchor.
pub open spec fn find_bundle(
    bundles: Seq<AnchoredBundle>,
    id: OpId,
    upto: int,
) -> Option<AnchoredBundle>
    decreases upto,
{
    if upto <= 0 || upto > bundles.len() {
        None
    } else if bundles[upto - 1].bundle.reveals(id) {
        Some(bundles[upto - 1])
    } else {
        find_bundle(bundles, id, upto - 1)
    }
}

/// Failures in checking the witness of a transition, given what comes of the checks: no
/// outcome of closing the seals where the anchor makes no commitment.
pub open spec fn closing_failures(
    opid: OpId,
    txid: Txid,
    closing: Option<Result<bool, SealError>>,
    verifying: Result<bool, AnchorError>,
) -> Seq<Failure> {
    let seals = match closing {
        None => seq![Failure::MpcInvalid(opid, txid)],
        Some(Err(err)) => seq![Failure::SealInvalid(opid, txid, err)],
        Some(Ok(false)) => seq![Failure::SealInvalid(opid, txid, SealError::CommitmentAbsent)],
        Some(Ok(true)) => Seq::empty(),
    };
    let anchor = match verifying {
        Err(err) => seq![Failure::AnchorInvalid(opid, txid, err)],
        Ok(false) => seq![Failure::AnchorInvalid(opid, txid, AnchorError::CommitmentAbsent)],
        Ok(true) => Seq::empty(),
    };
    seals + anchor
}

impl History {
    /// Ends of the history, after the bundles were looked at.
    pub open spec fn ends(self) -> Ends {
        Ends {
            report: Report::empty().fail_all(bundle_failures(self.bundles, 0)),
            transitions: Seq::empty(),
        }.note_terminals(self, 0)
    }

    /// Bundle of a transition, with the anchor that commits to it.
    pub open spec fn anchored(self, id: OpId) -> Option<AnchoredBundle> {
        find_bundle(self.bundles, id, self.bundles.len() as int)
    }

    /// Anchor of a transition.
    pub open spec fn anchor(self, id: OpId) -> Option<Anchor> {
        match self.anchored(id) {
            Some(anchored) => Some(anchored.anchor),
            None => None,
        }
    }

    /// Bundle that a transition is in.
    pub open spec fn bundle(self, id: OpId) -> Option<BundleId> {
        match self.anchored(id) {
            Some(anchored) => Some(anchored.bundle.bundle_id),
            None => None,
        }
    }

    /// Seal that an input of a transition closes, or why it is not known.
    pub open spec fn input_seal(self, opid: OpId, input: Input) -> Result<Seal, Failure> {
        let prev = input.prev_out;
        if !self.operations.contains_key(prev.op) {
            Err(Failure::OperationAbsent(prev.op))
        } else {
            match self.operations[prev.op].assigns(prev.ty) {
                None => Err(
                    Failure::NoPrevState { opid, prev_id: prev.op, state_type: prev.ty },
                ),
                Some(assigns) => match assigns.seal_at(prev.no) {
                    Err(_) => Err(Failure::NoPrevOut(opid, prev)),
                    Ok(None) => Err(Failure::ConfidentialSeal(prev)),
                    Ok(Some(seal)) => Ok(seal),
                },
            }
        }
    }

    /// Seals that the inputs of a transition from an index on close.
    pub open spec fn input_seals(self, opid: OpId, inputs: Seq<Input>, from: int) -> Seq<Seal>
        decreases inputs.len() - from,
    {
        if from < 0 || from >= inputs.len() {
            Seq::empty()
        } else {
            let rest = self.input_seals(opid, inputs, from + 1);
            match self.input_seal(opid, inputs[from]) {
                Ok(seal) => seq![seal] + rest,
                Err(_) => rest,
            }
        }
    }

    /// Failures of the inputs of a transition from an index on whose seals are not known.
    pub open spec fn input_failures(self, opid: OpId, inputs: Seq<Input>, from: int) -> Seq<Failure>
        decreases inputs.len() - from,
    {
        if from < 0 || from >= inputs.len() {
            Seq::empty()
        } else {
            let rest = self.input_failures(opid, inputs, from + 1);
            match self.input_seal(opid, inputs[from]) {
                Ok(_) => rest,
                Err(failure) => seq![failure] + rest,
            }
        }
    }

    /// Failures of a transition against its witness transaction.
    pub open spec fn witness_failures(
        self,
        transition: Transition,
        bundle_id: BundleId,
        anchor: Anchor,
        tx: TxModel,
    ) -> Seq<Failure> {
        let opid = transition.id;
        let contract_id = self.genesis.contract_id;
        let seals = self.input_seals(opid, transition.inputs@, 0);
        let closing = match anchor.commitment(contract_id, bundle_id) {
            Some(commitment) => Some(anchor.closed(tx, seals, commitment)),
            None => None,
        };
        self.input_failures(opid, transition.inputs@, 0) + closing_failures(
            opid,
            anchor.parts().txid,
            closing,
            anchor.verified(contract_id, bundle_id, tx),
        )
    }

    /// What there is to report of a transition, given the reply of the resolver to its witness
    /// transaction.
    pub open spec fn transition_report(
        self,
        transition: Transition,
        bundle_id: BundleId,
        anchor: Anchor,
        reply: Reply,
    ) -> Report {
        match reply {
            Err(_) => Report::empty().unresolve(anchor.parts().txid),
            Ok(tx) => Report::empty().fail_all(
                self.witness_failures(transition, bundle_id, anchor, tx@),
            ),
        }
    }

    /// Operations that the inputs of a transition from an index on refer to, as far as they are
    /// known.
    pub open spec fn input_parents(self, inputs: Seq<Input>, from: int) -> Seq<Operation>
        decreases inputs.len() - from,
    {
        if from < 0 || from >= inputs.len() {
            Seq::empty()
        } else {
            let rest = self.input_parents(inputs, from + 1);
            if self.operations.contains_key(inputs[from].prev_out.op) {
                seq![self.operations[inputs[from].prev_out.op]] + rest
            } else {
                rest
            }
        }
    }

    /// Failures of the inputs of a transition from an index on that refer to no known
    /// operation.
    pub open spec fn absent_failures(self, inputs: Seq<Input>, from: int) -> Seq<Failure>
        decreases inputs.len() - from,
    {
        if from < 0 || from >= inputs.len() {
            Seq::empty()
        } else {
            let rest = self.absent_failures(inputs, from + 1);
            if self.operations.contains_key(inputs[from].prev_out.op) {
                rest
            } else {
                seq![Failure::TransitionAbsent(inputs[from].prev_out.op)] + rest
            }
        }
    }

    /// Operation that a valency is redeemed of, or why there is none.
    pub open spec fn redeemed_of(self, opid: OpId, redeemed: Redeemed) -> Result<
        Operation,
        Failure,
    > {
        let prev_id = redeemed.prev_id;
        let valency = redeemed.valency;
        if !self.operations.contains_key(prev_id) {
            Err(Failure::ValencyNoParent { opid, prev_id, valency })
        } else if !self.operations[prev_id].valencies().contains(valency) {
            Err(Failure::NoPrevValency { opid, prev_id, valency })
        } else {
            Ok(self.operations[prev_id])
        }
    }

    /// Operations that valencies from an index on are redeemed of.
    pub open spec fn valency_parents(
        self,
        opid: OpId,
        redeemed: Seq<Redeemed>,
        from: int,
    ) -> Seq<Operation>
        decreases redeemed.len() - from,
    {
        if from < 0 || from >= redeemed.len() {
            Seq::empty()
        } else {
            let rest = self.valency_parents(opid, redeemed, from + 1);
            match self.redeemed_of(opid, redeemed[from]) {
                Ok(parent) => seq![parent] + rest,
                Err(_) => rest,
            }
        }
    }

    /// Failures of valencies from an index on that are redeemed of no operation.
    pub open spec fn valency_failures(
        self,
        opid: OpId,
        redeemed: Seq<Redeemed>,
        from: int,
    ) -> Seq<Failure>
        decreases redeemed.len() - from,
    {
        if from < 0 || from >= redeemed.len() {
            Seq::empty()
        } else {
            let rest = self.valency_failures(opid, redeemed, from + 1);
            match self.redeemed_of(opid, redeemed[from]) {
                Ok(_) => rest,
                Err(failure) => seq![failure] + rest,
            }
        }
    }

    /// Known operations that an operation builds upon.
    pub open spec fn parents(self, operation: Operation) -> Seq<Operation> {
        match operation {
            Operation::Genesis(_) => Seq::empty(),
            Operation::Transition(transition) => self.input_parents(transition.inputs@, 0),
            Operation::Extension(extension) => self.valency_parents(
                extension.id,
                extension.redeemed@,
                0,
            ),
        }
    }

    /// Failures of an operation in what it builds upon.
    pub open spec fn parent_failures(self, operation: Operation) -> Seq<Failure> {
        match operation {
            Operation::Genesis(_) => Seq::empty(),
            Operation::Transition(transition) => self.absent_failures(transition.inputs@, 0),
            Operation::Extension(extension) => self.valency_failures(
                extension.id,
                extension.redeemed@,
                0,
            ),
        }
    }

    /// Validation gone on by the check of an operation against the schema, unless it was
    /// checked already.
    pub open spec fn check_schema(self, operation: Operation, progress: Progress) -> Progress {
        if progress.validated.contains(operation.id()) {
            progress
        } else {
            Progress {
                report: progress.report.plus((self.op_report)(operation)),
                validated: progress.validated.insert(operation.id()),
                ..progress
            }
        }
    }

    /// Validation gone on by a question to the resolver and by what its reply comes to.
    pub open spec fn ask(
        self,
        transition: Transition,
        bundle_id: BundleId,
        anchor: Anchor,
        progress: Progress,
        replies: Seq<Reply>,
    ) -> Progress {
        let reply = replies[progress.asked.len() as int];
        Progress {
            report: progress.report.plus(
                self.transition_report(transition, bundle_id, anchor, reply),
            ),
            asked: progress.asked.push(anchor.parts().txid),
            ..progress
        }
    }

    /// Validation gone on by the check of a transition against its anchor, unless it was
    /// checked already. The anchor has to commit to the bundle that the transition is named
    /// with, or else to the bundle that it is in.
    pub open spec fn check_anchor(
        self,
        transition: Transition,
        named: Option<BundleId>,
        progress: Progress,
        replies: Seq<Reply>,
    ) -> Progress {
        match self.anchored(transition.id) {
            None => progress.fail(Failure::NotAnchored(transition.id)),
            Some(anchored) => if progress.anchored.contains(transition.id) {
                progress
            } else {
                let anchor = anchored.anchor;
                let bundle_id = match named {
                    Some(bundle_id) => bundle_id,
                    None => anchored.bundle.bundle_id,
                };
                let committed = if anchor.commitment(self.genesis.contract_id, bundle_id) is Some {
                    progress
                } else {
                    progress.fail(Failure::NotInAnchor(transition.id, anchor.parts().txid))
                };
                let asked = self.ask(transition, bundle_id, anchor, committed, replies);
                Progress { anchored: asked.anchored.insert(transition.id), ..asked }
            },
        }
    }

    /// Validation gone on by one operation, which may be named with a bundle.
    pub open spec fn visit(
        self,
        operation: Operation,
        named: Option<BundleId>,
        progress: Progress,
        replies: Seq<Reply>,
    ) -> Progress {
        let checked = self.check_schema(operation, progress);
        let anchored = match operation {
            Operation::Transition(transition) => self.check_anchor(
                transition,
                named,
                checked,
                replies,
            ),
            _ => checked,
        };
        anchored.fail_all(self.parent_failures(operation))
    }

    /// Operations still to visit, after the first of them was visited.
    pub open spec fn advance(self, queue: Seq<Operation>) -> Seq<Operation> {
        if queue.len() == 0 {
            queue
        } else {
            queue.drop_first() + self.parents(queue[0])
        }
    }

    /// Operations still to visit, after a number of visits.
    pub open spec fn queue_after(self, queue: Seq<Operation>, visits: nat) -> Seq<Operation>
        decreases visits,
    {
        if visits == 0 {
            queue
        } else {
            self.queue_after(self.advance(queue), (visits - 1) as nat)
        }
    }

    /// Whether a number of visits leaves nothing to visit.
    pub open spec fn ends_after(self, queue: Seq<Operation>, visits: nat) -> bool {
        self.queue_after(queue, visits).len() == 0
    }

    /// Whether visiting operations and all that they build upon comes to an end.
    pub open spec fn finite(self, queue: Seq<Operation>) -> bool {
        exists|visits: nat| self.ends_after(queue, visits)
    }

    /// Validation gone on by a number of visits. The first operation may be named with a bundle.
    pub open spec fn walk(
        self,
        queue: Seq<Operation>,
        visits: nat,
        named: Option<BundleId>,
        progress: Progress,
        replies: Seq<Reply>,
    ) -> Progress
        decreases visits,
    {
        if visits == 0 || queue.len() == 0 {
            progress
        } else {
            self.walk(
                self.advance(queue),
                (visits - 1) as nat,
                None,
                self.visit(queue[0], named, progress, replies),
                replies,
            )
        }
    }

    /// Validation gone on by a transition and all that it builds upon, operation by operation,
    /// nearer ones first. The transition is named with the bundle of its terminal.
    pub open spec fn branch(
        self,
        transition: Transition,
        bundle_id: BundleId,
        progress: Progress,
        replies: Seq<Reply>,
    ) -> Progress {
        let queue = seq![Operation::Transition(transition)];
        let visits = choose|visits: nat| self.ends_after(queue, visits);
        self.walk(queue, visits, Some(bundle_id), progress, replies)
    }

    /// Validation gone on by the ends of the history from an index on.
    pub open spec fn branches(
        self,
        ends: Seq<(Transition, BundleId)>,
        from: int,
        progress: Progress,
        replies: Seq<Reply>,
    ) -> Progress
        decreases ends.len() - from,
    {
        if from < 0 || from >= ends.len() {
            progress
        } else {
            self.branches(
                ends,
                from + 1,
                self.branch(ends[from].0, ends[from].1, progress, replies),
                replies,
            )
        }
    }

    /// Report in which the witness transactions of ends from an index on are forgiven for not
    /// being mined yet.
    pub open spec fn forgive(
        self,
        ends: Seq<(Transition, BundleId)>,
        from: int,
        report: Report,
    ) -> Report
        decreases ends.len() - from,
    {
        if from < 0 || from >= ends.len() {
            report
        } else {
            let next = match self.anchor(ends[from].0.id) {
                Some(anchor) => report.forgive(anchor.parts().txid),
                None => report,
            };
            self.forgive(ends, from + 1, next)
        }
    }

    /// Report of operations that were not validated.
    pub open spec fn report_excess(self, validated: Set<OpId>, report: Report) -> Report {
        let excess = self.op_ids.filter(outside(validated));
        Report {
            warnings: report.warnings + excess.map_values(
                |id: OpId| Warning::ExcessiveOperation(id),
            ),
            ..report
        }
    }

    /// State of validation when the schema was checked.
    pub open spec fn started(self) -> Progress {
        Progress {
            report: self.ends().report.plus(self.schema_report),
            validated: Set::empty(),
            anchored: Set::empty(),
            asked: Seq::empty(),
        }
    }

    /// Validation gone on by the genesis.
    pub open spec fn found(self, progress: Progress) -> Progress {
        Progress {
            report: progress.report.plus((self.op_report)(Operation::Genesis(self.genesis))),
            validated: progress.validated.insert(self.genesis.id),
            ..progress
        }
    }

    /// Validation gone on by the contract.
    pub open spec fn contract(self, progress: Progress, replies: Seq<Reply>) -> Progress {
        if self.schema_id != self.genesis.schema_id {
            progress.fail(
                Failure::SchemaMismatch {
                    expected: self.genesis.schema_id,
                    actual: self.schema_id,
                },
            )
        } else {
            let ends = self.ends().transitions;
            let visited = self.branches(ends, 0, self.found(progress), replies);
            let forgiven = self.forgive(ends, 0, visited.report);
            Progress { report: self.report_excess(visited.validated, forgiven), ..visited }
        }
    }

    /// Validation of the whole history. An invalid schema stops it: there is no point in
    /// checking operations against one.
    pub open spec fn validation(self, replies: Seq<Reply>) -> Progress {
        if self.schema_report.validity() == Validity::Invalid {
            self.started()
        } else {
            self.contract(self.started(), replies)
        }
    }
}

} // verus!
