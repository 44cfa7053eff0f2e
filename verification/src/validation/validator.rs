//! Validation of a consignment.
use crate::contract::{
    AnchoredBundle, ConsignmentApi, Extension, History, OpRef, Operation, Transition,
};
use crate::ids::{BundleId, OpId, SchemaId, Txid};
use crate::index::{OpIdSet, OpIndex};
use crate::validation::comparison::{run_settles, settled_run_idle};
use crate::validation::counting::contract_balanced;
use crate::validation::indexing::{collect_ends, index_anchors, indexed, transitions};
use crate::validation::laws::{ends_ancestral, parents_ancestral};
use crate::validation::model::{Progress, Reply};
use crate::validation::resolver::ResolveTx;
use crate::validation::status::{Failure, Report, Status, Validity, Warning};
use crate::validation::witness::{readable_by, Anchor, Tx};
use crate::validation::witnessing::validate_reply;
use std::collections::VecDeque;
use vstd::prelude::*;

verus! {

/// Whether the transactions that a resolver may give can be looked through for the commitments
/// of the anchors that they are asked for of.
pub open spec fn replies_readable<R: ResolveTx>(history: History, resolver: R) -> bool {
    forall|transition: Transition, tx: Tx|
        history.ancestral(Operation::Transition(transition)) ==> #[trigger] reply_readable(
            history,
            resolver,
            transition,
            tx,
        )
}

/// Whether a transaction can be looked through for the commitment of the anchor of a
/// transition, where the resolver may give it and the anchor makes a commitment.
pub open spec fn reply_readable<R: ResolveTx>(
    history: History,
    resolver: R,
    transition: Transition,
    tx: Tx,
) -> bool {
    history.anchor(transition.id) matches Some(anchor) ==> (anchor.serves(
        history.genesis.contract_id,
    ) && resolver.may_reply(anchor.parts().txid, Ok(tx)) ==> readable_by(
        anchor.parts().method,
        tx@,
    ))
}

/// Whether the proofs of the anchors that are checked are no deeper than multi-protocol trees can
/// be.
pub open spec fn proofs_shallow(history: History) -> bool {
    forall|transition: Transition| #[trigger]
        history.ancestral(Operation::Transition(transition)) ==> (history.anchor(
            transition.id,
        ) matches Some(anchor) ==> anchor.parts().depth < 32)
}

/// Whether the ancestors of every end of a history can be gone through.
pub open spec fn ancestry_finite(history: History) -> bool {
    forall|i: int|
        0 <= i < history.ends().transitions.len() ==> history.finite(
            seq![Operation::Transition((#[trigger] history.ends().transitions[i]).0)],
        )
}

/// Whether replies are those that a resolver may give to questions.
pub open spec fn replies_of<R: ResolveTx>(
    resolver: R,
    asked: Seq<Txid>,
    replies: Seq<Reply>,
) -> bool {
    &&& replies.len() == asked.len()
    &&& forall|i: int| 0 <= i < asked.len() ==> resolver.may_reply(asked[i], #[trigger] replies[i])
}

/// Operations that references refer to.
spec fn operations(queue: Seq<OpRef<'_>>) -> Seq<Operation> {
    queue.map_values(|operation: OpRef<'_>| operation@)
}

/// Validation of a consignment under way.
pub struct Validator<'consignment, 'resolver, C: ConsignmentApi, R: ResolveTx> {
    consignment: &'consignment C,
    status: Status,
    schema_id: SchemaId,
    genesis_id: OpId,
    anchor_index: OpIndex<&'consignment AnchoredBundle>,
    end_transitions: Vec<(&'consignment Transition, BundleId)>,
    validation_index: OpIdSet,
    anchor_validation_index: OpIdSet,
    resolver: &'resolver R,
    asked: Ghost<Seq<Txid>>,
    replies: Ghost<Seq<Reply>>,
}

impl<'consignment, 'resolver, C: ConsignmentApi, R: ResolveTx> Validator<
    'consignment,
    'resolver,
    C,
    R,
> {
    spec fn history(&self) -> History {
        self.consignment.history()
    }

    spec fn progress(&self) -> Progress {
        Progress {
            report: self.status@,
            validated: self.validation_index@.dom(),
            anchored: self.anchor_validation_index@.dom(),
            asked: self.asked@,
        }
    }

    spec fn well_formed(&self) -> bool {
        &&& self.schema_id == self.history().genesis.schema_id
        &&& self.genesis_id == self.history().genesis.id
        &&& self.anchor_index.well_formed()
        &&& self.validation_index.well_formed()
        &&& self.anchor_validation_index.well_formed()
        &&& forall|id: OpId| #[trigger] indexed(self.anchor_index@, id, self.history().anchored(id))
        &&& transitions(self.end_transitions@) == self.history().ends().transitions
        &&& replies_of(*self.resolver, self.asked@, self.replies@)
    }

    /// Whether two states are of the same validation, the second not before the first.
    spec fn leads_to(&self, later: &Self) -> bool {
        &&& later.well_formed()
        &&& later.consignment == self.consignment
        &&& later.resolver == self.resolver
        &&& later.end_transitions == self.end_transitions
        &&& self.replies@.is_prefix_of(later.replies@)
    }

    /// Validation of a consignment about to begin.
    fn init(consignment: &'consignment C, resolver: &'resolver R) -> (validator: Self)
        ensures
            validator.well_formed(),
            validator.consignment == consignment,
            validator.resolver == resolver,
            validator.replies@ == Seq::<Reply>::empty(),
            validator.progress() == (Progress {
                report: consignment.history().ends().report,
                validated: Set::empty(),
                anchored: Set::empty(),
                asked: Seq::empty(),
            }),
    {
        let mut status = Status::default();
        let anchor_index = index_anchors(consignment, &mut status);
        let end_transitions = collect_ends(consignment, &mut status);
        let validator = Validator {
            consignment,
            status,
            schema_id: consignment.genesis().schema_id,
            genesis_id: consignment.genesis().id,
            anchor_index,
            end_transitions,
            validation_index: OpIndex::new(),
            anchor_validation_index: OpIndex::new(),
            resolver,
            asked: Ghost(Seq::empty()),
            replies: Ghost(Seq::empty()),
        };
        assert(validator.progress().validated =~= Set::empty());
        assert(validator.progress().anchored =~= Set::empty());
        validator
    }

    /// Checks the schema.
    fn validate_schema(&mut self) -> (validity: Validity)
        requires
            old(self).well_formed(),
        ensures
            old(self).leads_to(final(self)),
            final(self).replies == old(self).replies,
            final(self).progress() == (Progress {
                report: old(self).progress().report.plus(old(self).history().schema_report),
                ..old(self).progress()
            }),
            validity == old(self).history().schema_report.validity(),
    {
        let status = self.consignment.verify_schema();
        let validity = status.validity();
        self.status.merge(status);
        validity
    }

    /// Checks the genesis against the schema.
    fn validate_genesis(&mut self)
        requires
            old(self).well_formed(),
        ensures
            old(self).leads_to(final(self)),
            final(self).replies == old(self).replies,
            final(self).progress() == old(self).history().found(old(self).progress()),
    {
        let genesis = OpRef::Genesis(self.consignment.genesis());
        let status = self.consignment.validate_operation(genesis);
        self.status.merge(status);
        self.validation_index.insert(self.genesis_id, ());
        assert(self.progress().validated =~= old(self).progress().validated.insert(
            self.genesis_id,
        ));
    }

    /// Checks each end of the history with all that it builds upon.
    fn validate_branches(&mut self)
        requires
            old(self).well_formed(),
            ancestry_finite(old(self).history()),
            replies_readable(old(self).history(), *old(self).resolver),
            proofs_shallow(old(self).history()),
        ensures
            old(self).leads_to(final(self)),
            forall|replies: Seq<Reply>| #[trigger]
                final(self).replies@.is_prefix_of(replies) ==> final(self).progress()
                    == old(self).history().branches(
                    old(self).history().ends().transitions,
                    0,
                    old(self).progress(),
                    replies,
                ),
    {
        let ghost history = self.history();
        let ghost ends = history.ends().transitions;
        let mut i: usize = 0;
        // The consignment is not validated as a whole. It is taken for a superposition of
        // graphs, one for each end, and those are validated one by one.
        while i < self.end_transitions.len()
            invariant
                history == old(self).history(),
                ends == history.ends().transitions,
                ancestry_finite(history),
                replies_readable(history, *self.resolver),
                proofs_shallow(history),
                i <= self.end_transitions.len(),
                old(self).leads_to(self),
                forall|replies: Seq<Reply>| #[trigger]
                    self.replies@.is_prefix_of(replies) ==> history.branches(
                        ends,
                        0,
                        old(self).progress(),
                        replies,
                    ) == history.branches(ends, i as int, self.progress(), replies),
            decreases self.end_transitions.len() - i,
        {
            let ghost before = *self;
            let (transition, bundle_id) = self.end_transitions[i];
            assert(ends[i as int] == (*transition, bundle_id));
            proof {
                ends_ancestral(history, i as int);
            }
            self.validate_branch(transition, bundle_id);
            proof {
                assert forall|replies: Seq<Reply>| #[trigger]
                    self.replies@.is_prefix_of(replies) implies history.branches(
                    ends,
                    0,
                    old(self).progress(),
                    replies,
                ) == history.branches(ends, i + 1, self.progress(), replies) by {
                    assert(before.replies@.is_prefix_of(replies));
                }
            }
            i = i + 1;
        }
    }

    /// Takes the witness transactions of the ends for not mined yet, where they could not be
    /// obtained.
    fn forgive_ends(&mut self)
        requires
            old(self).well_formed(),
        ensures
            old(self).leads_to(final(self)),
            final(self).replies == old(self).replies,
            final(self).progress() == (Progress {
                report: old(self).history().forgive(
                    old(self).history().ends().transitions,
                    0,
                    old(self).progress().report,
                ),
                ..old(self).progress()
            }),
    {
        let ghost history = self.history();
        let ghost ends = history.ends().transitions;
        let mut i: usize = 0;
        while i < self.end_transitions.len()
            invariant
                history == old(self).history(),
                ends == history.ends().transitions,
                i <= self.end_transitions.len(),
                old(self).leads_to(self),
                self.replies == old(self).replies,
                self.progress() == (Progress { report: self.status@, ..old(self).progress() }),
                history.forgive(ends, 0, old(self).status@) == history.forgive(
                    ends,
                    i as int,
                    self.status@,
                ),
            decreases self.end_transitions.len() - i,
        {
            let transition = self.end_transitions[i].0;
            assert(ends[i as int].0 == *transition);
            assert(indexed(self.anchor_index@, transition.id, history.anchored(transition.id)));
            if let Some(anchored) = self.anchor_index.get(transition.id) {
                let txid = anchored.anchor.txid();
                self.status.forgive(txid);
            }
            i = i + 1;
        }
    }

    /// Reports the operations that were not validated. They do no harm, but the consignment is
    /// not as it should be.
    fn report_excess(&mut self)
        requires
            old(self).well_formed(),
        ensures
            old(self).leads_to(final(self)),
            final(self).replies == old(self).replies,
            final(self).progress() == (Progress {
                report: old(self).history().report_excess(
                    old(self).progress().validated,
                    old(self).progress().report,
                ),
                ..old(self).progress()
            }),
    {
        let excess = self.consignment.op_ids_except(&self.validation_index);
        let ghost warnings = excess@.map_values(|id: OpId| Warning::ExcessiveOperation(id));
        let mut i: usize = 0;
        assert(warnings.take(0) =~= Seq::empty());
        assert(self.status@.warnings =~= self.status@.warnings + warnings.take(0));
        while i < excess.len()
            invariant
                i <= excess.len(),
                warnings == excess@.map_values(|id: OpId| Warning::ExcessiveOperation(id)),
                old(self).leads_to(self),
                self.replies == old(self).replies,
                self.progress() == (Progress { report: self.status@, ..old(self).progress() }),
                self.status@ == (Report {
                    warnings: old(self).status@.warnings + warnings.take(i as int),
                    ..old(self).status@
                }),
            decreases excess.len() - i,
        {
            assert(warnings.take(i + 1) =~= warnings.take(i as int).push(
                Warning::ExcessiveOperation(excess@[i as int]),
            ));
            self.status.add_warning(Warning::ExcessiveOperation(excess[i]));
            assert(self.status@.warnings =~= old(self).status@.warnings + warnings.take(i + 1));
            i = i + 1;
        }
        assert(warnings.take(i as int) =~= warnings);
    }

    /// Checks the operations of the contract.
    fn validate_contract(&mut self)
        requires
            old(self).well_formed(),
            old(self).history().schema_id == old(self).history().genesis.schema_id ==> {
                &&& ancestry_finite(old(self).history())
                &&& replies_readable(old(self).history(), *old(self).resolver)
                &&& proofs_shallow(old(self).history())
            },
        ensures
            old(self).leads_to(final(self)),
            forall|replies: Seq<Reply>| #[trigger]
                final(self).replies@.is_prefix_of(replies) ==> final(self).progress()
                    == old(self).history().contract(old(self).progress(), replies),
            // Each end excuses one question for its witness transaction that was not answered, and
            // the others are failures.
            old(self).history().schema_id == old(self).history().genesis.schema_id ==> forall|
                txid: Txid,
            | #[trigger]
                old(self).history().ops_silent(txid) && old(self).progress().report.silent(txid)
                    ==> old(self).history().balanced(
                    old(self).progress(),
                    final(self).progress(),
                    final(self).replies@,
                    txid,
                ),
    {
        // The schema has to be that of the genesis.
        let schema_id = self.consignment.schema_id();
        if schema_id != self.schema_id {
            let failure = Failure::SchemaMismatch { expected: self.schema_id, actual: schema_id };
            self.status.add_failure(failure);
            // There is no point in checking the data against another schema: that would come to
            // a plenty of meaningless failures.
            return ;
        }
        self.validate_genesis();
        self.validate_branches();
        self.forgive_ends();
        self.report_excess();
        proof {
            let history = old(self).history();
            let progress = old(self).progress();
            let replies = self.replies@;
            assert(replies.is_prefix_of(replies));
            assert(self.progress() == history.contract(progress, replies));
            assert forall|txid: Txid| #[trigger]
                history.ops_silent(txid) && progress.report.silent(txid) implies history.balanced(
                progress,
                self.progress(),
                replies,
                txid,
            ) by {
                contract_balanced(history, progress, replies, txid);
            }
        }
    }

    /// Validates a consignment, asking a resolver for the witness transactions.
    ///
    /// A failure does not stop validation: it goes to the report, and the rest of the
    /// consignment is validated still, which helps to find all that is wrong with it. Only with
    /// a schema that is invalid, or that is not the one of the contract, nothing is checked
    /// against it.
    ///
    /// The report is what `History::validation` makes of replies that the resolver may have
    /// given to the questions it was asked.
    pub fn validate(consignment: &'consignment C, resolver: &'resolver R) -> (status: Status)
        requires
            consignment.history().goes_on() ==> ancestry_finite(consignment.history()),
            consignment.history().goes_on() ==> replies_readable(
                consignment.history(),
                *resolver,
            ),
            consignment.history().goes_on() ==> proofs_shallow(consignment.history()),
        ensures
            exists|replies: Seq<Reply>|
                {
                    &&& replies_of(
                        *resolver,
                        (#[trigger] consignment.history().validation(replies)).asked,
                        replies,
                    )
                    &&& status@ == consignment.history().validation(replies).report
                },
    {
        let mut validator = Validator::init(consignment, resolver);
        let schema_validity = validator.validate_schema();
        let ghost history = consignment.history();
        assert(validator.progress() == history.started());
        if schema_validity == Validity::Invalid {
            // There is no reason to check operations against an invalid schema: that would come
            // to a plenty of failures.
            assert(replies_of(
                *resolver,
                history.validation(validator.replies@).asked,
                validator.replies@,
            ));
            return validator.status;
        }
        validator.validate_contract();
        proof {
            let replies = validator.replies@;
            assert(replies.is_prefix_of(replies));
            assert(validator.progress() == history.validation(replies));
        }
        validator.status
    }

    /// Asks for the witness transaction of a transition and checks the transition against it.
    fn validate_transition(
        &mut self,
        transition: &'consignment Transition,
        bundle_id: BundleId,
        anchor: &'consignment Anchor,
    )
        requires
            old(self).well_formed(),
            replies_readable(old(self).history(), *old(self).resolver),
            proofs_shallow(old(self).history()),
            old(self).history().ancestral(Operation::Transition(*transition)),
            old(self).history().anchor(transition.id) == Some(*anchor),
        ensures
            old(self).leads_to(final(self)),
            forall|replies: Seq<Reply>| #[trigger]
                final(self).replies@.is_prefix_of(replies) ==> final(self).progress()
                    == old(self).history().ask(
                    *transition,
                    bundle_id,
                    *anchor,
                    old(self).progress(),
                    replies,
                ),
    {
        let txid = anchor.txid();
        let reply = self.resolver.resolve_tx(txid);
        let ghost reply_given = reply;
        proof {
            if let Ok(tx) = reply_given {
                assert(reply_readable(self.history(), *self.resolver, *transition, tx));
            }
        }
        let status = validate_reply(self.consignment, transition, bundle_id, anchor, reply);
        self.status.merge(status);
        self.asked = Ghost(self.asked@.push(txid));
        self.replies = Ghost(self.replies@.push(reply_given));
        proof {
            assert(old(self).replies@.is_prefix_of(self.replies@));
            assert(replies_of(*self.resolver, self.asked@, self.replies@));
            assert(self.well_formed());
            assert forall|replies: Seq<Reply>| #[trigger]
                self.replies@.is_prefix_of(replies) implies self.progress()
                == old(self).history().ask(
                *transition,
                bundle_id,
                *anchor,
                old(self).progress(),
                replies,
            ) by {
                assert(self.replies@[old(self).asked@.len() as int] == reply_given);
                assert(replies[old(self).asked@.len() as int] == reply_given);
            }
        }
    }

    /// Checks an operation against the schema, unless it was checked already.
    fn validate_operation(&mut self, operation: OpRef<'consignment>)
        requires
            old(self).well_formed(),
        ensures
            old(self).leads_to(final(self)),
            final(self).replies == old(self).replies,
            final(self).progress() == old(self).history().check_schema(
                operation@,
                old(self).progress(),
            ),
    {
        let opid = operation.id();
        if !self.validation_index.contains(opid) {
            let status = self.consignment.validate_operation(operation);
            self.status.merge(status);
            self.validation_index.insert(opid, ());
        }
        proof {
            assert(self.progress().validated =~= old(self).history().check_schema(
                operation@,
                old(self).progress(),
            ).validated);
        }
    }

    /// Checks a transition, which may be named with a bundle, against its anchor, unless it was
    /// checked already.
    fn validate_anchor(
        &mut self,
        transition: &'consignment Transition,
        named: Option<BundleId>,
    )
        requires
            old(self).well_formed(),
            replies_readable(old(self).history(), *old(self).resolver),
            proofs_shallow(old(self).history()),
            old(self).history().ancestral(Operation::Transition(*transition)),
        ensures
            old(self).leads_to(final(self)),
            forall|replies: Seq<Reply>| #[trigger]
                final(self).replies@.is_prefix_of(replies) ==> final(self).progress()
                    == old(self).history().check_anchor(
                    *transition,
                    named,
                    old(self).progress(),
                    replies,
                ),
    {
        let opid = transition.id;
        let contract_id = self.consignment.genesis().contract_id;
        assert(indexed(self.anchor_index@, opid, self.history().anchored(opid)));
        let found: Option<&'consignment AnchoredBundle> = match self.anchor_index.get(opid) {
            Some(anchored) => Some(*anchored),
            None => None,
        };
        match found {
            Some(anchored) => {
                if !self.anchor_validation_index.contains(opid) {
                    let anchor = &anchored.anchor;
                    let bundle_id = match named {
                        Some(bundle_id) => bundle_id,
                        None => anchored.bundle.bundle_id,
                    };
                    // The bundle of the transition has to be committed to in the anchor.
                    if anchor.convolve(contract_id, bundle_id).is_err() {
                        self.status.add_failure(Failure::NotInAnchor(opid, anchor.txid()));
                    }
                    self.validate_transition(transition, bundle_id, anchor);
                    let ghost asked = *self;
                    self.anchor_validation_index.insert(opid, ());
                    proof {
                        assert(self.progress().anchored =~= asked.progress().anchored.insert(opid));
                    }
                }
            },
            None => {
                self.status.add_failure(Failure::NotAnchored(opid));
            },
        }
    }

    /// Puts the operations that the inputs of a transition refer to into a queue, and reports
    /// those that are not known.
    fn enqueue_inputs(
        &mut self,
        transition: &'consignment Transition,
        queue: &mut VecDeque<OpRef<'consignment>>,
    )
        requires
            old(self).well_formed(),
        ensures
            old(self).leads_to(final(self)),
            final(self).replies == old(self).replies,
            final(self).progress() == old(self).progress().fail_all(
                old(self).history().absent_failures(transition.inputs@, 0),
            ),
            operations(final(queue)@) == operations(old(queue)@) + old(
                self,
            ).history().input_parents(transition.inputs@, 0),
    {
        let ghost history = self.history();
        let ghost inputs = transition.inputs@;
        let consignment: &'consignment C = self.consignment;
        let mut i: usize = 0;
        assert(self.progress() =~= self.progress().fail_all(Seq::empty()));
        while i < transition.inputs.len()
            invariant
                i <= transition.inputs.len(),
                inputs == transition.inputs@,
                history == old(self).history(),
                consignment == self.consignment,
                old(self).leads_to(self),
                self.replies == old(self).replies,
                old(self).progress().fail_all(history.absent_failures(inputs, 0))
                    == self.progress().fail_all(history.absent_failures(inputs, i as int)),
                operations(old(queue)@) + history.input_parents(inputs, 0) == operations(queue@)
                    + history.input_parents(inputs, i as int),
            decreases transition.inputs.len() - i,
        {
            let ghost before = *self;
            let ghost queued = queue@;
            let prev_id = transition.inputs[i].prev_out.op;
            match consignment.operation(prev_id) {
                Some(operation) => {
                    queue.push_back(operation);
                },
                None => {
                    self.status.add_failure(Failure::TransitionAbsent(prev_id));
                },
            }
            proof {
                assert(before.progress().fail_all(history.absent_failures(inputs, i as int))
                    =~= self.progress().fail_all(history.absent_failures(inputs, i + 1)));
                assert(operations(queued) + history.input_parents(inputs, i as int)
                    =~= operations(queue@) + history.input_parents(inputs, i + 1));
            }
            i = i + 1;
        }
        assert(self.progress() =~= self.progress().fail_all(Seq::empty()));
        assert(operations(queue@) =~= operations(queue@) + Seq::<Operation>::empty());
    }

    /// Puts the operations that an extension redeems valencies of into a queue, and reports the
    /// valencies that are not there.
    fn enqueue_redeemed(
        &mut self,
        extension: &'consignment Extension,
        queue: &mut VecDeque<OpRef<'consignment>>,
    )
        requires
            old(self).well_formed(),
        ensures
            old(self).leads_to(final(self)),
            final(self).replies == old(self).replies,
            final(self).progress() == old(self).progress().fail_all(
                old(self).history().valency_failures(extension.id, extension.redeemed@, 0),
            ),
            operations(final(queue)@) == operations(old(queue)@) + old(
                self,
            ).history().valency_parents(extension.id, extension.redeemed@, 0),
    {
        let ghost history = self.history();
        let ghost redeemed = extension.redeemed@;
        let consignment: &'consignment C = self.consignment;
        let opid = extension.id;
        let mut i: usize = 0;
        while i < extension.redeemed.len()
            invariant
                i <= extension.redeemed.len(),
                opid == extension.id,
                redeemed == extension.redeemed@,
                history == old(self).history(),
                consignment == self.consignment,
                old(self).leads_to(self),
                self.replies == old(self).replies,
                old(self).progress().fail_all(history.valency_failures(opid, redeemed, 0))
                    == self.progress().fail_all(
                    history.valency_failures(opid, redeemed, i as int),
                ),
                operations(old(queue)@) + history.valency_parents(opid, redeemed, 0) == operations(
                    queue@,
                ) + history.valency_parents(opid, redeemed, i as int),
            decreases extension.redeemed.len() - i,
        {
            let ghost before = *self;
            let ghost queued = queue@;
            let valency = extension.redeemed[i].valency;
            let prev_id = extension.redeemed[i].prev_id;
            match consignment.operation(prev_id) {
                Some(prev_op) => {
                    if prev_op.has_valency(valency) {
                        queue.push_back(prev_op);
                    } else {
                        self.status.add_failure(
                            Failure::NoPrevValency { opid, prev_id, valency },
                        );
                    }
                },
                None => {
                    self.status.add_failure(Failure::ValencyNoParent { opid, prev_id, valency });
                },
            }
            proof {
                assert(before.progress().fail_all(
                    history.valency_failures(opid, redeemed, i as int),
                ) =~= self.progress().fail_all(history.valency_failures(opid, redeemed, i + 1)));
                assert(operations(queued) + history.valency_parents(opid, redeemed, i as int)
                    =~= operations(queue@) + history.valency_parents(opid, redeemed, i + 1));
            }
            i = i + 1;
        }
        assert(self.progress() =~= self.progress().fail_all(Seq::empty()));
        assert(operations(queue@) =~= operations(queue@) + Seq::<Operation>::empty());
    }

    /// Checks an operation, and puts those that it builds upon into a queue.
    fn visit(
        &mut self,
        operation: OpRef<'consignment>,
        named: Option<BundleId>,
        queue: &mut VecDeque<OpRef<'consignment>>,
    )
        requires
            old(self).well_formed(),
            replies_readable(old(self).history(), *old(self).resolver),
            proofs_shallow(old(self).history()),
            old(self).history().ancestral(operation@),
        ensures
            old(self).leads_to(final(self)),
            forall|replies: Seq<Reply>| #[trigger]
                final(self).replies@.is_prefix_of(replies) ==> final(self).progress()
                    == old(self).history().visit(
                    operation@,
                    named,
                    old(self).progress(),
                    replies,
                ),
            operations(final(queue)@) == operations(old(queue)@) + old(self).history().parents(
                operation@,
            ),
    {
        // Only the operation by itself is checked here, not how the state evolves.
        self.validate_operation(operation);
        match operation {
            OpRef::Genesis(_) => {
                // The genesis builds upon nothing.
                assert(self.progress() =~= self.progress().fail_all(Seq::empty()));
                assert(operations(queue@) =~= operations(queue@) + Seq::<Operation>::empty());
            },
            OpRef::Transition(transition) => {
                self.validate_anchor(transition, named);
                self.enqueue_inputs(transition, queue);
            },
            OpRef::Extension(extension) => {
                self.enqueue_redeemed(extension, queue);
            },
        }
    }

    /// Checks a transition and all that it builds upon, up to the genesis.
    fn validate_branch(&mut self, transition: &'consignment Transition, bundle_id: BundleId)
        requires
            old(self).well_formed(),
            replies_readable(old(self).history(), *old(self).resolver),
            proofs_shallow(old(self).history()),
            old(self).history().ancestral(Operation::Transition(*transition)),
            old(self).history().finite(seq![Operation::Transition(*transition)]),
        ensures
            old(self).leads_to(final(self)),
            forall|replies: Seq<Reply>| #[trigger]
                final(self).replies@.is_prefix_of(replies) ==> final(self).progress()
                    == old(self).history().branch(
                    *transition,
                    bundle_id,
                    old(self).progress(),
                    replies,
                ),
            // A run over what has nothing wrong in its references leaves it settled, and a run over
            // what is settled changes nothing and asks for nothing.
            old(self).history().flawless(*transition) ==> old(self).history().branch_settled(
                *transition,
                final(self).progress(),
            ),
            old(self).history().branch_settled(*transition, old(self).progress())
                ==> final(self).progress() == old(self).progress() && final(self).replies
                == old(self).replies,
    {
        let ghost history = self.history();
        let ghost start = seq![Operation::Transition(*transition)];
        let ghost mut visits = choose|visits: nat| history.ends_after(start, visits);

        // A queue keeps track of the ancestors, so that each one of them is checked, up to the
        // genesis. The graph is valid when each of its nodes and each of its edges is: when each
        // operation is valid against the schema, and each change of state that it builds upon is
        // valid and committed to in the transaction graph by an anchor.
        let mut queue: VecDeque<OpRef<'consignment>> = VecDeque::new();
        queue.push_back(OpRef::Transition(transition));
        // The transition comes with the bundle of its terminal; an ancestor is taken with the
        // bundle that it is in.
        let mut named: Option<BundleId> = Some(bundle_id);
        assert(operations(queue@) =~= start);
        while queue.len() > 0
            invariant
                history == old(self).history(),
                old(self).leads_to(self),
                replies_readable(history, *self.resolver),
                proofs_shallow(history),
                forall|i: int|
                    0 <= i < queue@.len() ==> history.ancestral(
                        #[trigger] operations(queue@)[i],
                    ),
                history.ends_after(operations(queue@), visits),
                forall|replies: Seq<Reply>| #[trigger]
                    self.replies@.is_prefix_of(replies) ==> history.branch(
                        *transition,
                        bundle_id,
                        old(self).progress(),
                        replies,
                    ) == history.walk(
                        operations(queue@),
                        visits,
                        named,
                        self.progress(),
                        replies,
                    ),
            decreases visits,
        {
            let ghost before = *self;
            let ghost queued = operations(queue@);
            if let Some(operation) = queue.pop_front() {
                proof {
                    assert(queued[0] == operation@);
                    assert(operations(queue@) =~= queued.drop_first());
                }
                self.visit(operation, named, &mut queue);
                named = None;
                proof {
                    assert(operations(queue@) =~= history.advance(queued));
                    parents_ancestral(history, operation@);
                    assert forall|i: int| 0 <= i < queue@.len() implies history.ancestral(
                        #[trigger] operations(queue@)[i],
                    ) by {
                        if i < queued.len() - 1 {
                            assert(operations(queue@)[i] == queued[i + 1]);
                        } else {
                            let j = i - (queued.len() - 1);
                            assert(operations(queue@)[i] == history.parents(operation@)[j]);
                        }
                    }
                    assert forall|replies: Seq<Reply>| #[trigger]
                        self.replies@.is_prefix_of(replies) implies history.branch(
                        *transition,
                        bundle_id,
                        old(self).progress(),
                        replies,
                    ) == history.walk(
                        operations(queue@),
                        (visits - 1) as nat,
                        named,
                        self.progress(),
                        replies,
                    ) by {
                        assert(before.replies@.is_prefix_of(replies));
                    }
                    visits = (visits - 1) as nat;
                }
            }
        }
        proof {
            let replies = self.replies@;
            let progress = old(self).progress();
            assert(replies.is_prefix_of(replies));
            assert(self.progress() == history.branch(*transition, bundle_id, progress, replies));
            if history.flawless(*transition) {
                run_settles(history, *transition, bundle_id, progress, replies);
            }
            if history.branch_settled(*transition, progress) {
                settled_run_idle(history, *transition, bundle_id, progress, replies);
                assert(self.replies@ =~= old(self).replies@);
            }
        }
    }
}

} // verus!
