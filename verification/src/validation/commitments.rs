//! What the checks of witness transactions come to, in terms of the bytes, outputs and seals that
//! they are made on.
use crate::ids::{BundleId, ContractId};
use crate::validation::witness::{
    convolved, first_op_return, first_seal_fault, is_op_return, le_value, opret_committed,
    protocol_pos, readable_by, scripts, seal_fault, tapret_verified, tx_fits, Anchor, AnchorError,
    CloseMethod, InvalidProof, Outpoint, Seal, SealError, TapretError, TxModel,
};
use vstd::arithmetic::div_mod::{
    lemma_fundamental_div_mod, lemma_mod_bound, lemma_mod_multiples_basic,
};
use vstd::arithmetic::mul::{
    lemma_mul_is_associative, lemma_mul_is_commutative, lemma_mul_is_distributive_add,
};
use vstd::arithmetic::power::{lemma_pow0, pow};
use vstd::arithmetic::power2::{lemma_pow2_pos, pow2};
use vstd::prelude::*;

verus! {

/// The number that a byte makes is the byte, and of bytes in two runs the second counts as much
/// more as the first is long.
pub proof fn le_value_splits(byte: u8, low: Seq<u8>, high: Seq<u8>)
    ensures
        le_value(Seq::empty()) == 0,
        le_value(seq![byte]) == byte,
        le_value(low + high) == le_value(low) + pow(256, low.len()) * le_value(high),
    decreases low.len(),
{
    assert(seq![byte].drop_first() =~= Seq::empty());
    assert(le_value(seq![byte].drop_first()) == 0);
    if low.len() == 0 {
        lemma_pow0(256);
        assert(low + high =~= high);
    } else {
        let rest = low.drop_first();
        le_value_splits(byte, rest, high);
        assert((low + high).drop_first() =~= rest + high);
        let scale = pow(256, rest.len());
        let value = le_value(high) as int;
        assert(pow(256, low.len()) == 256 * scale) by {
            reveal(pow);
        }
        lemma_mul_is_associative(256, scale, value);
        lemma_mul_is_distributive_add(256, le_value(rest) as int, scale * value);
    }
}

/// The number that bytes make is below the power of 256 with as many of them.
pub proof fn le_value_bounded(bytes: Seq<u8>)
    ensures
        le_value(bytes) < pow(256, bytes.len()),
    decreases bytes.len(),
{
    if bytes.len() == 0 {
        lemma_pow0(256);
    } else {
        le_value_bounded(bytes.drop_first());
        assert(pow(256, bytes.len()) == 256 * pow(256, bytes.drop_first().len())) by {
            reveal(pow);
        }
    }
}

/// A protocol stands at a leaf below the number of slots, which are the leaves but as many as the
/// cofactor, and one at least. The leaf differs from the number of the protocol by a multiple of
/// that number.
pub proof fn protocol_pos_slot(protocol: Seq<u8>, cofactor: u16, depth: u8)
    ensures
        ({
            let leaves = pow2(depth as nat);
            let slots: int = if leaves > cofactor {
                leaves - cofactor
            } else {
                1
            };
            let pos = protocol_pos(protocol, cofactor, depth);
            &&& 0 <= pos < slots
            &&& (le_value(protocol) - pos) % slots == 0
        }),
{
    let leaves = pow2(depth as nat);
    lemma_pow2_pos(depth as nat);
    let slots: int = if leaves > cofactor {
        leaves - cofactor
    } else {
        1
    };
    let value = le_value(protocol) as int;
    let pos = protocol_pos(protocol, cofactor, depth) as int;
    lemma_mod_bound(value, slots);
    lemma_fundamental_div_mod(value, slots);
    assert(value - pos == slots * (value / slots));
    assert((slots * (value / slots)) % slots == 0) by {
        lemma_mod_multiples_basic(value / slots, slots);
        lemma_mul_is_commutative(slots, value / slots);
    }
}

proof fn first_op_return_first(outputs: Seq<Seq<u8>>, from: int)
    requires
        0 <= from,
    ensures
        match first_op_return(outputs, from) {
            None => forall|i: int| from <= i < outputs.len() ==> !is_op_return(outputs[i]),
            Some(script) => exists|i: int|
                {
                    &&& from <= i < outputs.len()
                    &&& #[trigger] outputs[i] == script
                    &&& is_op_return(script)
                    &&& forall|j: int| from <= j < i ==> !is_op_return(outputs[j])
                },
        },
    decreases outputs.len() - from,
{
    if from < outputs.len() {
        first_op_return_first(outputs, from + 1);
        if is_op_return(outputs[from]) {
            assert(outputs[from] == first_op_return(outputs, from)->Some_0);
        } else if first_op_return(outputs, from + 1) is Some {
            let script = first_op_return(outputs, from + 1)->Some_0;
            let i = choose|i: int|
                {
                    &&& from + 1 <= i < outputs.len()
                    &&& #[trigger] outputs[i] == script
                    &&& is_op_return(script)
                    &&& forall|j: int| from + 1 <= j < i ==> !is_op_return(outputs[j])
                };
            assert(outputs[i] == script);
        }
    }
}

/// A commitment is in the outputs of a transaction by OP_RETURN just where some output is the
/// script that pushes it and nothing else, and no output before that one starts with OP_RETURN.
pub proof fn opret_committed_iff(outputs: Seq<Seq<u8>>, commitment: Seq<u8>)
    ensures
        opret_committed(outputs, commitment) <==> exists|i: int|
            {
                &&& 0 <= i < outputs.len()
                &&& #[trigger] outputs[i] == seq![0x6au8, 0x20u8] + commitment
                &&& forall|j: int|
                    0 <= j < i ==> (#[trigger] outputs[j]).len() == 0 || outputs[j][0] != 0x6a
            },
{
    let script = seq![0x6au8, 0x20u8] + commitment;
    first_op_return_first(outputs, 0);
    assert(is_op_return(script));
    if opret_committed(outputs, commitment) {
        let i = choose|i: int|
            {
                &&& 0 <= i < outputs.len()
                &&& #[trigger] outputs[i] == script
                &&& is_op_return(script)
                &&& forall|j: int| 0 <= j < i ==> !is_op_return(outputs[j])
            };
        assert forall|j: int| 0 <= j < i implies (#[trigger] outputs[j]).len() == 0
            || outputs[j][0] != 0x6a by {
            assert(!is_op_return(outputs[j]));
        }
        assert(outputs[i] == script);
    }
    if exists|i: int|
        {
            &&& 0 <= i < outputs.len()
            &&& #[trigger] outputs[i] == script
            &&& forall|j: int|
                0 <= j < i ==> (#[trigger] outputs[j]).len() == 0 || outputs[j][0] != 0x6a
        } {
        let i = choose|i: int|
            {
                &&& 0 <= i < outputs.len()
                &&& #[trigger] outputs[i] == script
                &&& forall|j: int|
                    0 <= j < i ==> (#[trigger] outputs[j]).len() == 0 || outputs[j][0] != 0x6a
            };
        assert(is_op_return(outputs[i]));
        assert(first_op_return(outputs, 0) is Some);
        let found = first_op_return(outputs, 0)->Some_0;
        let k = choose|k: int|
            {
                &&& 0 <= k < outputs.len()
                &&& #[trigger] outputs[k] == found
                &&& is_op_return(found)
                &&& forall|j: int| 0 <= j < k ==> !is_op_return(outputs[j])
            };
        assert(is_op_return(outputs[k]));
        assert(k == i);
    }
}

/// An OP_RETURN commitment can be looked for in a transaction just where every empty script has a
/// script before it that starts with OP_RETURN. A tapret commitment can be looked for in any.
pub proof fn readable_iff(tx: TxModel)
    ensures
        readable_by(CloseMethod::TapretFirst, tx),
        readable_by(CloseMethod::OpretFirst, tx) <==> forall|i: int|
            0 <= i < tx.outputs.len() && (#[trigger] tx.outputs[i]).len() == 0 ==> exists|j: int|
                0 <= j < i && (#[trigger] tx.outputs[j]).len() > 0 && tx.outputs[j][0] == 0x6a,
{
    let outputs = tx.outputs;
    if readable_by(CloseMethod::OpretFirst, tx) {
        assert forall|i: int| 0 <= i < outputs.len() && (
        #[trigger] outputs[i]).len() == 0 implies exists|j: int|
            0 <= j < i && (#[trigger] outputs[j]).len() > 0 && outputs[j][0] == 0x6a by {
            assert(!forall|j: int| 0 <= j < i ==> !is_op_return(outputs[j]));
            let j = choose|j: int| 0 <= j < i && is_op_return(outputs[j]);
            assert(outputs[j].len() > 0);
        }
    }
    if forall|i: int|
        0 <= i < outputs.len() && (#[trigger] outputs[i]).len() == 0 ==> exists|j: int|
            0 <= j < i && (#[trigger] outputs[j]).len() > 0 && outputs[j][0] == 0x6a {
        assert forall|i: int|
            0 <= i < outputs.len() && (forall|j: int|
                0 <= j < i ==> !is_op_return(outputs[j])) implies (
        #[trigger] outputs[i]).len() > 0 by {
            if outputs[i].len() == 0 {
                let j = choose|j: int|
                    0 <= j < i && (#[trigger] outputs[j]).len() > 0 && outputs[j][0] == 0x6a;
                assert(!is_op_return(outputs[j]));
            }
        }
    }
}

/// What is wrong with seals is what is wrong with the first wrong one. A seal is wrong where it is
/// not closed in the way that the first seal is, where its transaction is not known, or where the
/// inputs do not spend its output, and is told so in that order.
pub proof fn seal_fault_first(seals: Seq<Seal>, inputs: Seq<Outpoint>)
    ensures
        first_seal_fault(seals, 0, inputs) is None <==> forall|i: int|
            0 <= i < seals.len() ==> {
                &&& (#[trigger] seals[i]).method == seals[0].method
                &&& seals[i].txid is Some
                &&& inputs.contains(Outpoint { txid: seals[i].txid->Some_0, vout: seals[i].vout })
            },
        first_seal_fault(seals, 0, inputs) matches Some(fault) ==> exists|i: int|
            {
                &&& 0 <= i < seals.len()
                &&& forall|j: int|
                    0 <= j < i ==> {
                        &&& (#[trigger] seals[j]).method == seals[0].method
                        &&& seals[j].txid is Some
                        &&& inputs.contains(
                            Outpoint { txid: seals[j].txid->Some_0, vout: seals[j].vout },
                        )
                    }
                &&& if (#[trigger] seals[i]).method != seals[0].method {
                    fault == SealError::InconsistentCloseMethod
                } else if seals[i].txid is None {
                    fault == SealError::NoWitnessTxid
                } else {
                    let outpoint = Outpoint { txid: seals[i].txid->Some_0, vout: seals[i].vout };
                    !inputs.contains(outpoint) && fault == SealError::WitnessNotClosingSeal(
                        outpoint,
                    )
                }
            },
{
    fault_found_first(seals, 0, inputs);
    assert forall|i: int| 0 <= i < seals.len() implies (seal_fault(
        #[trigger] seals[i],
        seals[0],
        inputs,
    ) is None <==> {
        &&& seals[i].method == seals[0].method
        &&& seals[i].txid is Some
        &&& inputs.contains(Outpoint { txid: seals[i].txid->Some_0, vout: seals[i].vout })
    }) by {}
    if first_seal_fault(seals, 0, inputs) is Some {
        let fault = first_seal_fault(seals, 0, inputs)->Some_0;
        let i = choose|i: int|
            {
                &&& 0 <= i < seals.len()
                &&& seal_fault(#[trigger] seals[i], seals[0], inputs) == Some(fault)
                &&& forall|j: int|
                    0 <= j < i ==> seal_fault(#[trigger] seals[j], seals[0], inputs) is None
            };
        assert(seals[i] == seals[i]);
    }
}

proof fn fault_found_first(seals: Seq<Seal>, from: int, inputs: Seq<Outpoint>)
    requires
        0 <= from,
    ensures
        first_seal_fault(seals, from, inputs) is None <==> forall|i: int|
            from <= i < seals.len() ==> seal_fault(#[trigger] seals[i], seals[0], inputs) is None,
        first_seal_fault(seals, from, inputs) matches Some(fault) ==> exists|i: int|
            {
                &&& from <= i < seals.len()
                &&& seal_fault(#[trigger] seals[i], seals[0], inputs) == Some(fault)
                &&& forall|j: int|
                    from <= j < i ==> seal_fault(#[trigger] seals[j], seals[0], inputs) is None
            },
    decreases seals.len() - from,
{
    if from < seals.len() {
        fault_found_first(seals, from + 1, inputs);
        if seal_fault(seals[from], seals[0], inputs) is None && first_seal_fault(
            seals,
            from + 1,
            inputs,
        ) is Some {
            let fault = first_seal_fault(seals, from + 1, inputs)->Some_0;
            let i = choose|i: int|
                {
                    &&& from + 1 <= i < seals.len()
                    &&& seal_fault(#[trigger] seals[i], seals[0], inputs) == Some(fault)
                    &&& forall|j: int|
                        from + 1 <= j < i ==> seal_fault(
                            #[trigger] seals[j],
                            seals[0],
                            inputs,
                        ) is None
                };
            assert(seal_fault(seals[i], seals[0], inputs) == Some(fault));
        }
    }
}

/// An anchor makes a commitment just where its proof stands at the position of the protocol, and
/// the commitment is made out of the message under the protocol.
pub proof fn commitment_iff(anchor: Anchor, protocol: ContractId, message: BundleId)
    ensures
        anchor.commitment(protocol, message) is Some <==> anchor.parts().pos == protocol_pos(
            protocol.0@,
            anchor.parts().cofactor,
            anchor.parts().depth,
        ),
        anchor.serves(protocol) <==> anchor.commitment(protocol, message) is Some,
        anchor.commitment(protocol, message) matches Some(commitment) ==> commitment == convolved(
            anchor.raw(),
            protocol.0@,
            message.0@,
        ),
{
}

/// A commitment is looked for in the outputs alone, by OP_RETURN or by tapret as the anchor has it.
pub proof fn found_by_method(anchor: Anchor, commitment: Seq<u8>, tx: TxModel)
    ensures
        anchor.parts().method == CloseMethod::OpretFirst ==> anchor.found(commitment, tx) == Ok::<
            bool,
            TapretError,
        >(opret_committed(tx.outputs, commitment)),
        anchor.parts().method == CloseMethod::TapretFirst ==> anchor.found(commitment, tx)
            == tapret_verified(anchor.raw(), commitment, tx.outputs),
{
}

/// An anchor is verified against a transaction just where it makes a commitment and the transaction
/// holds it. It fails with the position of the proof where it makes none, and with what is wrong
/// with the tapret commitment where that can not be checked.
pub proof fn verified_iff(anchor: Anchor, protocol: ContractId, message: BundleId, tx: TxModel)
    ensures
        ({
            let outcome = anchor.verified(protocol, message, tx);
            match anchor.commitment(protocol, message) {
                None => outcome == Err::<bool, AnchorError>(
                    AnchorError::Lnpbp4InvalidProof(
                        InvalidProof {
                            protocol_id: protocol,
                            expected: protocol_pos(
                                protocol.0@,
                                anchor.parts().cofactor,
                                anchor.parts().depth,
                            ) as u32,
                            actual: anchor.parts().pos,
                            width: pow2(anchor.parts().depth as nat) as u32,
                        },
                    ),
                ),
                Some(commitment) => match anchor.found(commitment, tx) {
                    Ok(found) => outcome == Ok::<bool, AnchorError>(found),
                    Err(err) => outcome == Err::<bool, AnchorError>(AnchorError::Tapret(err)),
                },
            }
        }),
{
}

/// A transaction closes seals over a commitment just where nothing is wrong with any seal and the
/// transaction holds the commitment. What is wrong with a seal comes before what is wrong with the
/// commitment.
pub proof fn closed_iff(anchor: Anchor, tx: TxModel, seals: Seq<Seal>, commitment: Seq<u8>)
    ensures
        ({
            let outcome = anchor.closed(tx, seals, commitment);
            match first_seal_fault(seals, 0, tx.inputs) {
                Some(fault) => outcome == Err::<bool, SealError>(fault),
                None => match anchor.found(commitment, tx) {
                    Ok(found) => outcome == Ok::<bool, SealError>(found),
                    Err(err) => outcome == Err::<bool, SealError>(
                        SealError::InvalidTapretCommitment(err),
                    ),
                },
            }
        }),
{
}

/// Adding outputs behind the first OP_RETURN output, or scripts that do not start with OP_RETURN
/// before it, changes nothing about an OP_RETURN commitment.
pub proof fn opret_committed_stable(
    before: Seq<Seq<u8>>,
    script: Seq<u8>,
    behind: Seq<Seq<u8>>,
    commitment: Seq<u8>,
)
    requires
        script.len() > 0 && script[0] == 0x6a,
        forall|i: int|
            0 <= i < before.len() ==> (#[trigger] before[i]).len() == 0 || before[i][0] != 0x6a,
    ensures
        opret_committed(before.push(script) + behind, commitment) <==> script == seq![
            0x6au8,
            0x20u8,
        ] + commitment,
{
    let outputs = before.push(script) + behind;
    opret_committed_iff(outputs, commitment);
    let at = before.len() as int;
    assert(outputs[at] == script);
    assert forall|i: int| 0 <= i < at implies (#[trigger] outputs[i]).len() == 0 || outputs[i][0]
        != 0x6a by {
        assert(outputs[i] == before[i]);
    }
    if opret_committed(outputs, commitment) {
        let i = choose|i: int|
            {
                &&& 0 <= i < outputs.len()
                &&& #[trigger] outputs[i] == seq![0x6au8, 0x20u8] + commitment
                &&& forall|j: int|
                    0 <= j < i ==> (#[trigger] outputs[j]).len() == 0 || outputs[j][0] != 0x6a
            };
        assert(outputs[i][0] == 0x6a);
        assert(i == at);
    }
}

/// Scripts as plain bytes are as many as the scripts, and each has the bytes of the one that it
/// stands for.
pub proof fn scripts_kept(outputs: Seq<Vec<u8>>)
    ensures
        scripts(outputs).len() == outputs.len(),
        forall|i: int| 0 <= i < outputs.len() ==> #[trigger] scripts(outputs)[i] == outputs[i]@,
{
}

/// A transaction can be made of inputs and outputs just where neither their numbers nor the length
/// of any script exceed 32 bits.
pub proof fn tx_fits_iff(inputs: Seq<Outpoint>, outputs: Seq<Seq<u8>>)
    ensures
        tx_fits(inputs, outputs) <==> {
            &&& inputs.len() < 0x1_0000_0000
            &&& outputs.len() < 0x1_0000_0000
            &&& forall|i: int|
                0 <= i < outputs.len() ==> (#[trigger] outputs[i]).len() < 0x1_0000_0000
        },
{
}

/// A seal is over the output of its transaction with its number, where the transaction is known.
pub proof fn outpoint_iff(seal: Seal)
    ensures
        seal.outpoint() is Some <==> seal.txid is Some,
        seal.outpoint() matches Some(outpoint) ==> Some(outpoint.txid) == seal.txid && outpoint.vout
            == seal.vout,
{
}

} // verus!
