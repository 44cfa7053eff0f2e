//! What comes of checking transitions against their witness transactions, in terms of what they
//! spend and of what the transactions hold.
use crate::contract::{History, Input, Operation, Transition};
use crate::ids::{BundleId, OpId, Txid};
use crate::validation::commitments::seal_fault_first;
use crate::validation::model::{closing_failures, Reply};
use crate::validation::resolver::TxResolverError;
use crate::validation::soundness::{no_witness_failures_iff, valid_committed};
use crate::validation::spending::{
    closes_seal_iff, input_seal_iff, inputs_listed, no_input_failures_iff,
};
use crate::validation::status::{Failure, Validity};
use crate::validation::validator::ancestry_finite;
use crate::validation::witness::{
    first_seal_fault, Anchor, AnchorError, Outpoint, Seal, SealError, TapretError, Tx, TxModel,
};
use vstd::prelude::*;

verus! {

/// The two checks of a witness fail apart from each other, that of the seals first. Each fails but
/// where it finds the commitment, and there are no failures just where both do.
pub proof fn closing_failures_parts(
    opid: OpId,
    txid: Txid,
    closing: Option<Result<bool, SealError>>,
    verifying: Result<bool, AnchorError>,
)
    ensures
        ({
            let failures = closing_failures(opid, txid, closing, verifying);
            let closed = closing == Some(Ok::<bool, SealError>(true));
            let verified = verifying == Ok::<bool, AnchorError>(true);
            &&& failures.len() == (if closed {
                0int
            } else {
                1
            }) + (if verified {
                0int
            } else {
                1
            })
            &&& closing is None ==> failures[0] == Failure::MpcInvalid(opid, txid)
            &&& closing matches Some(Err(err)) ==> failures[0] == Failure::SealInvalid(
                opid,
                txid,
                err,
            )
            &&& closing == Some(Ok::<bool, SealError>(false)) ==> failures[0]
                == Failure::SealInvalid(opid, txid, SealError::CommitmentAbsent)
            &&& verifying matches Err(err) ==> failures.last() == Failure::AnchorInvalid(
                opid,
                txid,
                err,
            )
            &&& verifying == Ok::<bool, AnchorError>(false) ==> failures.last()
                == Failure::AnchorInvalid(opid, txid, AnchorError::CommitmentAbsent)
        }),
{
}

/// What is wrong with a transition by its witness transaction are the failures of its inputs and,
/// behind them, those of the two checks. An anchor that makes no commitment under the contract
/// fails both. Otherwise the transaction is checked to close the seals of the inputs over the
/// commitment, and to hold the commitment.
pub proof fn witness_failures_parts(
    history: History,
    transition: Transition,
    bundle_id: BundleId,
    anchor: Anchor,
    tx: TxModel,
)
    ensures
        ({
            let opid = transition.id;
            let txid = anchor.parts().txid;
            let contract_id = history.genesis.contract_id;
            let inputs = transition.inputs@;
            let failures = history.witness_failures(transition, bundle_id, anchor, tx);
            let verifying = anchor.verified(contract_id, bundle_id, tx);
            failures == inputs.flat_map(
                |input: Input|
                    match history.input_seal(opid, input) {
                        Ok(_) => Seq::<Failure>::empty(),
                        Err(failure) => seq![failure],
                    },
            ) + match anchor.commitment(contract_id, bundle_id) {
                None => closing_failures(opid, txid, None, verifying),
                Some(commitment) => closing_failures(
                    opid,
                    txid,
                    Some(
                        anchor.closed(
                            tx,
                            inputs.flat_map(
                                |input: Input|
                                    match history.input_seal(opid, input) {
                                        Ok(seal) => seq![seal],
                                        Err(_) => Seq::<Seal>::empty(),
                                    },
                            ),
                            commitment,
                        ),
                    ),
                    verifying,
                ),
            }
        }),
{
    inputs_listed(history, transition.id, transition.inputs@);
}

impl History {
    /// Whether a transaction spends what every input of a transition refers to: the assignment is
    /// known and made to a revealed seal over a known output, and the output is among those that
    /// the transaction spends. The seals are all to be closed in one way.
    pub open spec fn spent_by(self, inputs: Seq<Input>, spent: Seq<Outpoint>) -> bool {
        &&& forall|i: int|
            0 <= i < inputs.len() ==> self.assigned_openly((#[trigger] inputs[i]).prev_out)
        &&& forall|i: int, seal: Seal|
            0 <= i < inputs.len() && #[trigger] self.assigned_to(inputs[i].prev_out, seal) ==> {
                &&& seal.txid is Some
                &&& spent.contains(Outpoint { txid: seal.txid->Some_0, vout: seal.vout })
            }
        &&& forall|i: int, j: int, seal: Seal, other: Seal|
            0 <= i < inputs.len() && 0 <= j < inputs.len() && #[trigger] self.assigned_to(
                inputs[i].prev_out,
                seal,
            ) && #[trigger] self.assigned_to(inputs[j].prev_out, other) ==> seal.method
                == other.method
    }
}

/// Nothing is wrong with the inputs of a transition and with their seals just where a transaction
/// spends what every input refers to.
pub proof fn spent_by_iff(history: History, opid: OpId, inputs: Seq<Input>, spent: Seq<Outpoint>)
    ensures
        history.input_failures(opid, inputs, 0).len() == 0 && first_seal_fault(
            history.input_seals(opid, inputs, 0),
            0,
            spent,
        ) is None <==> history.spent_by(inputs, spent),
{
    let seals = history.input_seals(opid, inputs, 0);
    no_input_failures_iff(history, opid, inputs);
    seal_fault_first(seals, spent);
    inputs_listed(history, opid, inputs);
    if history.input_failures(opid, inputs, 0).len() == 0 && first_seal_fault(
        seals,
        0,
        spent,
    ) is None {
        assert forall|i: int, seal: Seal|
            0 <= i < inputs.len() && #[trigger] history.assigned_to(
                inputs[i].prev_out,
                seal,
            ) implies {
            &&& seal.txid is Some
            &&& spent.contains(Outpoint { txid: seal.txid->Some_0, vout: seal.vout })
            &&& seal.method == seals[0].method
        } by {
            input_seal_iff(history, opid, inputs[i], seal);
            assert(seals.contains(seal));
            assert(seals[seals.index_of(seal)] == seal);
        }
    }
    if history.spent_by(inputs, spent) {
        assert forall|k: int| 0 <= k < seals.len() implies {
            &&& (#[trigger] seals[k]).method == seals[0].method
            &&& seals[k].txid is Some
            &&& spent.contains(Outpoint { txid: seals[k].txid->Some_0, vout: seals[k].vout })
        } by {
            assert(seals.contains(seals[k]));
            assert(seals.contains(seals[0]));
            closes_seal_iff(history, opid, inputs, seals[k]);
            closes_seal_iff(history, opid, inputs, seals[0]);
            let i = choose|i: int|
                0 <= i < inputs.len() && history.assigned_to(
                    (#[trigger] inputs[i]).prev_out,
                    seals[k],
                );
            let j = choose|j: int|
                0 <= j < inputs.len() && history.assigned_to(
                    (#[trigger] inputs[j]).prev_out,
                    seals[0],
                );
            assert(history.assigned_to(inputs[i].prev_out, seals[k]));
            assert(history.assigned_to(inputs[j].prev_out, seals[0]));
        }
    }
}

/// A witness transaction leaves nothing to report of a transition just where it spends what every
/// input of the transition refers to, the anchor makes a commitment out of the bundle under the
/// contract, and the transaction holds that commitment.
pub proof fn witness_clean_iff(
    history: History,
    transition: Transition,
    bundle_id: BundleId,
    anchor: Anchor,
    tx: TxModel,
)
    ensures
        history.witness_failures(transition, bundle_id, anchor, tx).len() == 0 <==> {
            &&& history.spent_by(transition.inputs@, tx.inputs)
            &&& anchor.commitment(history.genesis.contract_id, bundle_id) is Some
            &&& anchor.found(
                anchor.commitment(history.genesis.contract_id, bundle_id)->Some_0,
                tx,
            ) == Ok::<bool, TapretError>(true)
        },
{
    no_witness_failures_iff(history, transition, bundle_id, anchor, tx);
    spent_by_iff(history, transition.id, transition.inputs@, tx.inputs);
}

/// Where a witness transaction leaves nothing to report of a transition, every input of the
/// transition, whichever, refers to a known operation with an assignment of the type and number to
/// a revealed seal, and the transaction spends the output of that seal.
pub proof fn clean_witness_spends(
    history: History,
    transition: Transition,
    bundle_id: BundleId,
    anchor: Anchor,
    tx: TxModel,
    i: int,
)
    requires
        history.witness_failures(transition, bundle_id, anchor, tx).len() == 0,
        0 <= i < transition.inputs@.len(),
    ensures
        history.spends(transition.inputs@[i], tx.inputs),
{
    witness_clean_iff(history, transition, bundle_id, anchor, tx);
    spent_by_spends(history, transition.inputs@, tx.inputs, i);
}

impl History {
    /// Whether an input refers to a known operation that has, among its assignments of the type,
    /// one with the number to a revealed seal, and the output of the seal is among some outputs.
    pub open spec fn spends(self, input: Input, spent: Seq<Outpoint>) -> bool {
        let out = input.prev_out;
        let assignments = self.operations[out.op].assignments();
        &&& self.operations.contains_key(out.op)
        &&& exists|k: int|
            {
                &&& 0 <= k < assignments.len()
                &&& (#[trigger] assignments[k]).ty == out.ty
                &&& out.no < assignments[k].seals@.len()
                &&& assignments[k].seals@[out.no as int].revealed is Some
                &&& assignments[k].seals@[out.no as int].revealed->Some_0.txid is Some
                &&& spent.contains(
                    Outpoint {
                        txid: assignments[k].seals@[out.no as int].revealed->Some_0.txid->Some_0,
                        vout: assignments[k].seals@[out.no as int].revealed->Some_0.vout,
                    },
                )
            }
    }
}

proof fn spent_by_spends(history: History, inputs: Seq<Input>, spent: Seq<Outpoint>, i: int)
    requires
        history.spent_by(inputs, spent),
        0 <= i < inputs.len(),
    ensures
        history.spends(inputs[i], spent),
{
    let out = inputs[i].prev_out;
    assert(history.assigned_openly(out));
    let seal = choose|seal: Seal| history.assigned_to(out, seal);
    let assignments = history.operations[out.op].assignments();
    let k = choose|k: int|
        {
            &&& 0 <= k < assignments.len()
            &&& (#[trigger] assignments[k]).ty == out.ty
            &&& forall|j: int| 0 <= j < k ==> (#[trigger] assignments[j]).ty != out.ty
            &&& out.no < assignments[k].seals@.len()
            &&& assignments[k].seals@[out.no as int].revealed == Some(seal)
        };
    assert(history.assigned_to(inputs[i].prev_out, seal));
    assert(assignments[k].ty == out.ty);
}

/// What there is to report of a transition by the reply of the resolver: that its transaction could
/// not be obtained, whatever the reason, or what is wrong with it by the transaction. There are no
/// warnings and no unmined terminals.
pub proof fn transition_report_parts(
    history: History,
    transition: Transition,
    bundle_id: BundleId,
    anchor: Anchor,
    reply: Reply,
)
    ensures
        ({
            let report = history.transition_report(transition, bundle_id, anchor, reply);
            let txid = anchor.parts().txid;
            &&& report.warnings.len() == 0
            &&& report.unmined_terminals.len() == 0
            &&& match reply {
                Err(_) => {
                    &&& report.failures == seq![Failure::SealNoWitnessTx(txid)]
                    &&& report.unresolved_txids == seq![txid]
                },
                Ok(tx) => {
                    &&& report.failures == history.witness_failures(
                        transition,
                        bundle_id,
                        anchor,
                        tx@,
                    )
                    &&& report.unresolved_txids.len() == 0
                },
            }
        }),
{
}

/// Of a consignment that is reported as valid, every input of every transition that is an end or an
/// ancestor of one is spent: the resolver was asked for the transaction of the anchor of the
/// transition, and gave one that spends what each of the inputs refers to.
pub proof fn valid_spends(history: History, replies: Seq<Reply>, transition: Transition)
    requires
        history.coherent(),
        ancestry_finite(history),
        history.validation(replies).report.validity() == Validity::Valid,
        history.ancestral(Operation::Transition(transition)),
    ensures
        history.anchor(transition.id) is Some,
        exists|q: int, tx: Tx|
            {
                &&& 0 <= q < history.validation(replies).asked.len()
                &&& history.validation(replies).asked[q] == history.anchor(
                    transition.id,
                )->Some_0.parts().txid
                &&& #[trigger] replies[q] == Ok::<Tx, TxResolverError>(tx)
                &&& forall|i: int|
                    0 <= i < transition.inputs@.len() ==> history.spends(
                        #[trigger] transition.inputs@[i],
                        (#[trigger] tx@).inputs,
                    )
            },
{
    valid_committed(history, replies, transition);
    let asked = history.validation(replies).asked;
    let anchor = history.anchor(transition.id)->Some_0;
    let seals = history.input_seals(transition.id, transition.inputs@, 0);
    let (bundle_id, q, tx) = choose|bundle_id: BundleId, q: int, tx: Tx|
        {
            &&& #[trigger] history.counts_for(transition.id, bundle_id)
            &&& 0 <= q < asked.len()
            &&& asked[q] == anchor.parts().txid
            &&& #[trigger] replies[q] == Ok::<Tx, TxResolverError>(tx)
            &&& anchor.commitment(history.genesis.contract_id, bundle_id) matches Some(commitment)
                && anchor.found(commitment, #[trigger] tx@) == Ok::<bool, TapretError>(true)
            &&& first_seal_fault(seals, 0, tx@.inputs) is None
        };
    spent_by_iff(history, transition.id, transition.inputs@, tx@.inputs);
    assert forall|i: int| 0 <= i < transition.inputs@.len() implies history.spends(
        #[trigger] transition.inputs@[i],
        tx@.inputs,
    ) by {
        spent_by_spends(history, transition.inputs@, tx@.inputs, i);
    }
    assert(replies[q] == Ok::<Tx, TxResolverError>(tx));
}

} // verus!
