//! Checks of a transition against its witness transaction.
use crate::contract::{ConsignmentApi, Input, Transition};
use crate::ids::{BundleId, OpId, Txid};
use crate::validation::model::{closing_failures, Reply};
use crate::validation::status::{Failure, Report, Status};
use crate::validation::witness::{readable_by, Anchor, AnchorError, Seal, SealError, Tx};
use vstd::prelude::*;

verus! {

/// Adds to a report what comes of the checks of a witness: whether its transaction closes the
/// seals, with no outcome where the anchor makes no commitment, and whether it commits to the
/// anchor. That the transaction does not hold the commitment is a failure of either check.
pub fn report_closing(
    status: &mut Status,
    opid: OpId,
    txid: Txid,
    closing: Option<Result<bool, SealError>>,
    verifying: Result<bool, AnchorError>,
)
    ensures
        final(status)@ == old(status)@.fail_all(closing_failures(opid, txid, closing, verifying)),
{
    match closing {
        None => {
            status.add_failure(Failure::MpcInvalid(opid, txid));
        },
        Some(Err(err)) => {
            status.add_failure(Failure::SealInvalid(opid, txid, err));
        },
        Some(Ok(false)) => {
            status.add_failure(Failure::SealInvalid(opid, txid, SealError::CommitmentAbsent));
        },
        Some(Ok(true)) => {},
    }
    match verifying {
        Err(err) => {
            // The operation is not committed to in the transaction graph. There is no worse
            // failure, but the rest is checked still.
            status.add_failure(Failure::AnchorInvalid(opid, txid, err));
        },
        Ok(false) => {
            status.add_failure(Failure::AnchorInvalid(opid, txid, AnchorError::CommitmentAbsent));
        },
        Ok(true) => {},
    }
    assert(status@ =~= old(status)@.fail_all(closing_failures(opid, txid, closing, verifying)));
}

/// Seal that an input of a transition closes, or why it is not known.
pub fn input_seal<C: ConsignmentApi>(consignment: &C, opid: OpId, input: Input) -> (seal: Result<
    Seal,
    Failure,
>)
    ensures
        seal == consignment.history().input_seal(opid, input),
{
    let prev_out = input.prev_out;
    let prev_op = match consignment.operation(prev_out.op) {
        Some(prev_op) => prev_op,
        None => {
            // The operation referred to is not in the consignment. Usually this means that the
            // data of the consignment are broken.
            return Err(Failure::OperationAbsent(prev_out.op));
        },
    };
    let variant = match prev_op.assignments_by_type(prev_out.ty) {
        Some(variant) => variant,
        None => {
            return Err(
                Failure::NoPrevState { opid, prev_id: prev_out.op, state_type: prev_out.ty },
            );
        },
    };
    match variant.revealed_seal_at(prev_out.no) {
        Err(_) => Err(Failure::NoPrevOut(opid, prev_out)),
        // Everything is in order, but for lack of data the seal can not be checked.
        Ok(None) => Err(Failure::ConfidentialSeal(prev_out)),
        Ok(Some(seal)) => Ok(seal),
    }
}

/// Checks a transition against its witness transaction.
pub fn validate_witness<C: ConsignmentApi>(
    consignment: &C,
    transition: &Transition,
    tx: &Tx,
    bundle_id: BundleId,
    anchor: &Anchor,
) -> (status: Status)
    requires
        anchor.parts().depth < 32,
        anchor.serves(consignment.history().genesis.contract_id) ==> readable_by(
            anchor.parts().method,
            tx@,
        ),
    ensures
        status@ == Report::empty().fail_all(
            consignment.history().witness_failures(*transition, bundle_id, *anchor, tx@),
        ),
{
    let ghost history = consignment.history();
    let ghost inputs = transition.inputs@;
    let opid = transition.id;
    let txid = anchor.txid();
    let contract_id = consignment.genesis().contract_id;
    let mut status = Status::default();

    // The transaction has to close the seals which the spent assignments are made to.
    let mut seals: Vec<Seal> = Vec::new();
    let mut i: usize = 0;
    while i < transition.inputs.len()
        invariant
            i <= transition.inputs.len(),
            opid == transition.id,
            inputs == transition.inputs@,
            history == consignment.history(),
            history.input_seals(opid, inputs, 0) == seals@ + history.input_seals(
                opid,
                inputs,
                i as int,
            ),
            history.input_failures(opid, inputs, 0) == status@.failures + history.input_failures(
                opid,
                inputs,
                i as int,
            ),
            status@ == Report::empty().fail_all(status@.failures),
        decreases transition.inputs.len() - i,
    {
        let ghost seals_before = seals@;
        let ghost failures_before = status@.failures;
        match input_seal(consignment, opid, transition.inputs[i]) {
            Ok(seal) => {
                seals.push(seal);
            },
            Err(failure) => {
                status.add_failure(failure);
            },
        }
        proof {
            let seals_rest = history.input_seals(opid, inputs, i + 1);
            let failures_rest = history.input_failures(opid, inputs, i + 1);
            assert(seals_before + history.input_seals(opid, inputs, i as int) =~= seals@
                + seals_rest);
            assert(failures_before + history.input_failures(opid, inputs, i as int)
                =~= status@.failures + failures_rest);
        }
        i = i + 1;
    }
    assert(seals@ =~= history.input_seals(opid, inputs, 0));
    assert(status@.failures =~= history.input_failures(opid, inputs, 0));

    let closing = match anchor.convolve(contract_id, bundle_id) {
        Ok(commitment) => Some(anchor.verify_many_seals(tx, &seals, commitment)),
        Err(_) => None,
    };
    let verifying = anchor.verify(contract_id, bundle_id, tx);
    report_closing(&mut status, opid, txid, closing, verifying);
    assert(status@ =~= Report::empty().fail_all(
        history.witness_failures(*transition, bundle_id, *anchor, tx@),
    ));
    status
}

/// Checks a transition, given the reply of the resolver to its witness transaction.
pub fn validate_reply<C: ConsignmentApi>(
    consignment: &C,
    transition: &Transition,
    bundle_id: BundleId,
    anchor: &Anchor,
    reply: Reply,
) -> (status: Status)
    requires
        reply is Ok ==> anchor.parts().depth < 32,
        anchor.serves(consignment.history().genesis.contract_id) ==> (reply matches Ok(tx)
            ==> readable_by(anchor.parts().method, tx@)),
    ensures
        status@ == consignment.history().transition_report(*transition, bundle_id, *anchor, reply),
{
    match reply {
        Err(_) => {
            // The transaction could not be obtained, so nothing can be checked. There may be no
            // connection to the source, which is no failure in the strict sense; but there may
            // also be no such transaction, so that the consignment can not be taken for valid.
            let mut status = Status::default();
            status.add_unresolved(anchor.txid());
            status
        },
        Ok(tx) => validate_witness(consignment, transition, &tx, bundle_id, anchor),
    }
}

} // verus!
