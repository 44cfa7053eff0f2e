//! Witness transactions, the anchors that commit to them, and the checks that `bp` and
//! `commit_verify` make on the two.
use crate::ids::{BundleId, ContractId, Txid};
use crate::validation::witness::SealFault::{
    AlternativePartner, DisorderedPartner, MixedMethods, Unclosed, UnknownTx, Untaprooted,
};
use amplify::confinement::Confined;
use amplify::ByteArray;
use bp::dbc::anchor::VerifyError::{Lnpbp4InvalidProof, Tapret};
use bp::dbc::tapret::TapretError::{KeyEmbedding, NoTaprootOutput};
use bp::dbc::tapret::TapretKeyError::{AlternativeCommitment, IncorrectOrdering};
use bp::dbc::{Anchor as BpAnchor, Proof as BpProof};
use bp::seals::txout::VerifyError::{
    InconsistentCloseMethod, InvalidTapretCommitment, NoWitnessTxid, WitnessNotClosingSeal,
};
use bp::seals::txout::TxPtr::WitnessTx;
use bp::seals::txout::{ExplicitSeal, Witness};
use commit_verify::mpc::{MerkleProof, Message, ProtocolId};
use single_use_seals::SealWitness;
use strict_encoding::{StrictDecode, StrictDumb, StrictEncode, StrictWriter};
use vstd::arithmetic::div_mod::{
    lemma_add_mod_noop, lemma_mul_mod_noop_right, lemma_small_mod,
};
use vstd::arithmetic::power2::{
    lemma2_to64, lemma_pow2_strictly_increases, lemma_pow2_unfold, pow2,
};
use vstd::prelude::*;

verus! {

/// Limit on the length of what is read and written, where there is none.
const UNLIMITED: usize = usize::MAX;

/// Output of a transaction.
#[derive(Clone, Copy, PartialEq, Eq, Hash, Debug)]
pub struct Outpoint {
    pub txid: Txid,
    pub vout: u32,
}

/// Method by which a single-use seal is closed.
#[derive(Clone, Copy, PartialEq, Eq, Structural, Hash, Debug)]
pub enum CloseMethod {
    /// The message is in the first OP_RETURN output.
    OpretFirst,
    /// The message is in the first taproot output.
    TapretFirst,
}

/// Revealed single-use seal: a transaction output together with the method of closing it.
#[derive(Clone, Copy, PartialEq, Eq, Hash, Debug)]
pub struct Seal {
    pub method: CloseMethod,
    /// The transaction, unless the seal points to the witness transaction of another seal.
    pub txid: Option<Txid>,
    pub vout: u32,
}

impl Seal {
    /// The output which the seal is defined over, if its transaction is known.
    pub open spec fn outpoint(self) -> Option<Outpoint> {
        match self.txid {
            Some(txid) => Some(Outpoint { txid, vout: self.vout }),
            None => None,
        }
    }
}

/// Why a tapret commitment can not be checked.
#[derive(Clone, Copy, PartialEq, Eq, Structural, Hash, Debug)]
pub enum TapretError {
    /// The node partner may hold an alternative commitment.
    AlternativeCommitment,
    /// The node partner is in a wrong order with the commitment node.
    IncorrectOrdering,
    /// The transaction has no taproot output.
    NoTaprootOutput,
}

/// Why a witness transaction does not close a set of seals.
#[derive(Clone, Copy, PartialEq, Eq, Hash, Debug)]
pub enum SealError {
    /// The seals differ in their closing method.
    InconsistentCloseMethod,
    /// The transaction does not spend the output of this seal.
    WitnessNotClosingSeal(Outpoint),
    /// A seal has no transaction id.
    NoWitnessTxid,
    /// The tapret commitment can not be checked.
    InvalidTapretCommitment(TapretError),
    /// The transaction does not hold the commitment which the seals are closed over.
    CommitmentAbsent,
}

/// The position of a multi-protocol proof is not that of the protocol.
#[derive(Clone, Copy, PartialEq, Eq, Hash, Debug)]
pub struct InvalidProof {
    pub protocol_id: ContractId,
    /// Position of the protocol in the tree.
    pub expected: u32,
    /// Position of the proof.
    pub actual: u32,
    /// Number of leaves of the tree.
    pub width: u32,
}

/// Why an operation is not committed to by way of an anchor.
#[derive(Clone, Copy, PartialEq, Eq, Hash, Debug)]
pub enum AnchorError {
    /// The tapret commitment can not be checked.
    Tapret(TapretError),
    /// The position of the multi-protocol proof is not that of the protocol.
    Lnpbp4InvalidProof(InvalidProof),
    /// The transaction does not hold the commitment of the anchor.
    CommitmentAbsent,
}

/// The parts of a transaction that the seal and commitment checks read.
pub struct TxModel {
    /// Outputs which the transaction spends.
    pub inputs: Seq<Outpoint>,
    /// Scripts of the outputs which the transaction makes.
    pub outputs: Seq<Seq<u8>>,
}

/// The parts of an anchor that validation reads.
#[derive(Clone, Copy, PartialEq, Eq, Debug)]
pub struct AnchorParts {
    /// Transaction which the anchor is about.
    pub txid: Txid,
    /// Position of the leaf in the multi-protocol tree.
    pub pos: u32,
    /// Cofactor of the multi-protocol tree.
    pub cofactor: u16,
    /// Depth of the multi-protocol tree.
    pub depth: u8,
    /// Kind of the bitcoin commitment.
    pub method: CloseMethod,
}

/// Strict encoding of the transaction that spends `inputs` and has outputs with the scripts
/// `outputs`, with every other field blank.
pub uninterp spec fn tx_encoding(inputs: Seq<Outpoint>, outputs: Seq<Seq<u8>>) -> Seq<u8>;

/// What reading an anchor from its strict encoding gives.
pub uninterp spec fn decoded_anchor(raw: Seq<u8>) -> Option<AnchorParts>;

/// Commitment that the proof of the encoded anchor makes out of a message under a protocol.
pub uninterp spec fn convolved(anchor: Seq<u8>, protocol: Seq<u8>, message: Seq<u8>) -> Seq<u8>;

/// Outcome of checking the tapret proof of the encoded anchor for a commitment in a
/// transaction with the given output scripts.
pub uninterp spec fn tapret_verified(
    anchor: Seq<u8>,
    commitment: Seq<u8>,
    outputs: Seq<Seq<u8>>,
) -> Result<bool, TapretError>;

/// Scripts as plain bytes.
pub open spec fn scripts(outputs: Seq<Vec<u8>>) -> Seq<Seq<u8>> {
    outputs.map_values(|script: Vec<u8>| script@)
}

/// Whether a transaction of this many inputs and outputs and of these script lengths exists.
pub open spec fn tx_fits(inputs: Seq<Outpoint>, outputs: Seq<Seq<u8>>) -> bool {
    &&& inputs.len() <= u32::MAX
    &&& outputs.len() <= u32::MAX
    &&& forall|i: int| 0 <= i < outputs.len() ==> (#[trigger] outputs[i]).len() <= u32::MAX
}

/// Encodes the transaction with `StrictEncode::strict_encode` of `strict_encoding`, after it
/// is built as a `Tx` of `bp`. The result is named.
#[verifier::external_body]
fn encode_tx(inputs: &Vec<Outpoint>, outputs: &Vec<Vec<u8>>) -> (raw: Vec<u8>)
    requires
        tx_fits(inputs@, scripts(outputs@)),
    ensures
        raw@ == tx_encoding(inputs@, scripts(outputs@)),
{
    let txin = |i: &Outpoint| bp::TxIn {
        prev_output: bp::Outpoint::new(i.txid.0.into(), i.vout),
        ..bp::TxIn::strict_dumb()
    };
    let tx = bp::Tx {
        inputs: Confined::from_iter_unsafe(inputs.iter().map(txin)),
        outputs: Confined::from_iter_unsafe(outputs.iter().map(|s| bp::TxOut::new(s.clone(), 0u64))),
        ..bp::Tx::strict_dumb()
    };
    tx.strict_encode(StrictWriter::in_memory(UNLIMITED)).unwrap().unbox()
}

/// Witness transaction.
pub struct Tx {
    inputs: Vec<Outpoint>,
    outputs: Vec<Vec<u8>>,
    raw: Vec<u8>,
}

impl View for Tx {
    type V = TxModel;

    closed spec fn view(&self) -> TxModel {
        TxModel { inputs: self.inputs@, outputs: scripts(self.outputs@) }
    }
}

impl Tx {
    #[verifier::type_invariant]
    closed spec fn well_formed(self) -> bool {
        self.raw@ == tx_encoding(self@.inputs, self@.outputs)
    }

    /// Transaction that spends `inputs` and makes outputs with the scripts `outputs`. There is
    /// none when a count or a length exceeds 32 bits.
    pub fn new(inputs: Vec<Outpoint>, outputs: Vec<Vec<u8>>) -> (tx: Option<Tx>)
        ensures
            tx is Some <==> tx_fits(inputs@, scripts(outputs@)),
            tx matches Some(tx) ==> tx@ == (TxModel {
                inputs: inputs@,
                outputs: scripts(outputs@),
            }),
    {
        let limit: usize = 0xffff_ffff;
        let ghost outs = scripts(outputs@);
        if inputs.len() > limit || outputs.len() > limit {
            return None;
        }
        let mut i: usize = 0;
        while i < outputs.len()
            invariant
                limit == u32::MAX,
                i <= outputs.len(),
                outs == scripts(outputs@),
                forall|j: int| 0 <= j < i ==> (#[trigger] outs[j]).len() <= u32::MAX,
            decreases outputs.len() - i,
        {
            assert(outs[i as int] == outputs@[i as int]@);
            if outputs[i].len() > limit {
                return None;
            }
            i = i + 1;
        }
        let raw = encode_tx(&inputs, &outputs);
        Some(Tx { inputs, outputs, raw })
    }

}

/// The commitment which a multi-protocol proof comes to.
#[derive(Clone, Copy, PartialEq, Eq, Hash, Debug)]
pub struct Commitment(pub [u8; 32]);

/// Number that the bytes make, the lowest byte first.
pub open spec fn le_value(bytes: Seq<u8>) -> nat
    decreases bytes.len(),
{
    if bytes.len() == 0 {
        0
    } else {
        bytes[0] as nat + 256 * le_value(bytes.drop_first())
    }
}

/// Leaf at which a protocol stands in a multi-protocol tree.
pub open spec fn protocol_pos(protocol: Seq<u8>, cofactor: u16, depth: u8) -> nat {
    let width = pow2(depth as nat);
    let slots = if width > cofactor {
        (width - cofactor) as nat
    } else {
        1
    };
    le_value(protocol) % slots
}

/// Whether a script starts with OP_RETURN.
pub open spec fn is_op_return(script: Seq<u8>) -> bool {
    script.len() > 0 && script[0] == 0x6a
}

/// First OP_RETURN script at or behind an index.
pub open spec fn first_op_return(outputs: Seq<Seq<u8>>, from: int) -> Option<Seq<u8>>
    decreases outputs.len() - from,
{
    if from < 0 || from >= outputs.len() {
        None
    } else if is_op_return(outputs[from]) {
        Some(outputs[from])
    } else {
        first_op_return(outputs, from + 1)
    }
}

/// Whether the first OP_RETURN output pushes the commitment and nothing else.
pub open spec fn opret_committed(outputs: Seq<Seq<u8>>, commitment: Seq<u8>) -> bool {
    first_op_return(outputs, 0) == Some(seq![0x6au8, 0x20u8] + commitment)
}

/// Whether no empty script stands before the first OP_RETURN output.
pub open spec fn opret_readable(outputs: Seq<Seq<u8>>) -> bool {
    forall|i: int|
        0 <= i < outputs.len() && (forall|j: int| 0 <= j < i ==> !is_op_return(outputs[j])) ==> (
        #[trigger] outputs[i]).len() > 0
}

/// Whether the commitment of an anchor can be looked for in a transaction.
pub open spec fn readable_by(method: CloseMethod, tx: TxModel) -> bool {
    method == CloseMethod::OpretFirst ==> opret_readable(tx.outputs)
}

/// Outcome of looking for a commitment in a transaction, given what comes of the check of a
/// tapret proof.
pub open spec fn dbc_outcome(
    method: CloseMethod,
    outputs: Seq<Seq<u8>>,
    commitment: Seq<u8>,
    tapret: Result<bool, TapretError>,
) -> Result<bool, TapretError> {
    match method {
        CloseMethod::OpretFirst => Ok(opret_committed(outputs, commitment)),
        CloseMethod::TapretFirst => tapret,
    }
}

/// What is wrong with one seal, given the first seal of its set.
pub open spec fn seal_fault(seal: Seal, first: Seal, inputs: Seq<Outpoint>) -> Option<SealError> {
    if seal.method != first.method {
        Some(SealError::InconsistentCloseMethod)
    } else {
        match seal.outpoint() {
            None => Some(SealError::NoWitnessTxid),
            Some(outpoint) => if inputs.contains(outpoint) {
                None
            } else {
                Some(SealError::WitnessNotClosingSeal(outpoint))
            },
        }
    }
}

/// What is wrong with the first wrong seal at or behind an index.
pub open spec fn first_seal_fault(seals: Seq<Seal>, from: int, inputs: Seq<Outpoint>) -> Option<
    SealError,
>
    decreases seals.len() - from,
{
    if from < 0 || from >= seals.len() {
        None
    } else {
        match seal_fault(seals[from], seals[0], inputs) {
            Some(fault) => Some(fault),
            None => first_seal_fault(seals, from + 1, inputs),
        }
    }
}

/// There is nothing wrong with seals just where they are all closed in one way, the transaction
/// of each is known, and the inputs spend the output of each.
pub proof fn no_seal_fault_iff(seals: Seq<Seal>, from: int, inputs: Seq<Outpoint>)
    requires
        0 <= from,
    ensures
        first_seal_fault(seals, from, inputs) is None <==> forall|i: int|
            from <= i < seals.len() ==> {
                &&& (#[trigger] seals[i]).method == seals[0].method
                &&& seals[i].outpoint() matches Some(outpoint) && inputs.contains(outpoint)
            },
    decreases seals.len() - from,
{
    if from < seals.len() {
        no_seal_fault_iff(seals, from + 1, inputs);
        assert(seal_fault(seals[from], seals[0], inputs) is None <==> {
            &&& seals[from].method == seals[0].method
            &&& seals[from].outpoint() matches Some(outpoint) && inputs.contains(outpoint)
        });
    }
}

/// Outcome of checking that a transaction closes seals, given what comes of looking for the
/// commitment in it.
pub open spec fn seals_outcome(
    seals: Seq<Seal>,
    inputs: Seq<Outpoint>,
    dbc: Result<bool, TapretError>,
) -> Result<bool, SealError> {
    match first_seal_fault(seals, 0, inputs) {
        Some(fault) => Err(fault),
        None => match dbc {
            Ok(found) => Ok(found),
            Err(err) => Err(SealError::InvalidTapretCommitment(err)),
        },
    }
}

/// Outcome of checking an anchor whose proof stands at the position of the protocol, given
/// what comes of looking for the commitment in the transaction.
pub open spec fn anchor_outcome(dbc: Result<bool, TapretError>) -> Result<bool, AnchorError> {
    match dbc {
        Ok(found) => Ok(found),
        Err(err) => Err(AnchorError::Tapret(err)),
    }
}

/// Outcome of checking seals, in flat form: one variant for each error.
enum SealFault {
    MixedMethods,
    Unclosed([u8; 32], u32),
    UnknownTx,
    AlternativePartner,
    DisorderedPartner,
    Untaprooted,
}

/// The error that a flat form stands for.
spec fn unflattened(fault: SealFault) -> SealError {
    match fault {
        SealFault::MixedMethods => SealError::InconsistentCloseMethod,
        SealFault::Unclosed(txid, vout) => SealError::WitnessNotClosingSeal(
            Outpoint { txid: Txid(txid), vout },
        ),
        SealFault::UnknownTx => SealError::NoWitnessTxid,
        SealFault::AlternativePartner => SealError::InvalidTapretCommitment(
            TapretError::AlternativeCommitment,
        ),
        SealFault::DisorderedPartner => SealError::InvalidTapretCommitment(
            TapretError::IncorrectOrdering,
        ),
        SealFault::Untaprooted => SealError::InvalidTapretCommitment(
            TapretError::NoTaprootOutput,
        ),
    }
}

/// The outcome that a flat form stands for.
spec fn unflattened_outcome(outcome: Result<bool, SealFault>) -> Result<bool, SealError> {
    match outcome {
        Ok(found) => Ok(found),
        Err(fault) => Err(unflattened(fault)),
    }
}

/// Outcome of checking an anchor, with no error value for a misplaced proof.
spec fn with_reason(outcome: Result<bool, TapretError>) -> Result<bool, Option<TapretError>> {
    match outcome {
        Ok(found) => Ok(found),
        Err(err) => Err(Some(err)),
    }
}

impl SealFault {
    fn unflatten(self) -> (err: SealError)
        ensures
            err == unflattened(self),
    {
        match self {
            SealFault::MixedMethods => SealError::InconsistentCloseMethod,
            SealFault::Unclosed(txid, vout) => SealError::WitnessNotClosingSeal(
                Outpoint { txid: Txid(txid), vout },
            ),
            SealFault::UnknownTx => SealError::NoWitnessTxid,
            SealFault::AlternativePartner => SealError::InvalidTapretCommitment(
                TapretError::AlternativeCommitment,
            ),
            SealFault::DisorderedPartner => SealError::InvalidTapretCommitment(
                TapretError::IncorrectOrdering,
            ),
            SealFault::Untaprooted => SealError::InvalidTapretCommitment(
                TapretError::NoTaprootOutput,
            ),
        }
    }
}

/// Reads an anchor with `StrictDecode::strict_read` of `strict_encoding`, on the `Anchor` of
/// `bp`, and takes from it what [`AnchorParts`] has. The result is named. Bytes behind the
/// anchor are not looked at. A script in a tapret proof may be up to 4 GiB long by the length
/// in front of it, and that much memory is asked for.
#[verifier::external_body]
fn decode_anchor(raw: &Vec<u8>) -> (parts: Option<AnchorParts>)
    ensures
        parts == decoded_anchor(raw@),
{
    let anchor = BpAnchor::<MerkleProof>::strict_read(UNLIMITED, &**raw).ok()?;
    Some(AnchorParts {
        txid: Txid(anchor.txid.to_byte_array()),
        pos: anchor.mpc_proof.pos(),
        cofactor: anchor.mpc_proof.cofactor(),
        depth: anchor.mpc_proof.depth(),
        method: match anchor.dbc_proof {
            BpProof::OpretFirst => CloseMethod::OpretFirst,
            _ => CloseMethod::TapretFirst,
        },
    })
}

/// Proof that a transaction commits to a message under a protocol.
pub struct Anchor {
    parts: AnchorParts,
    raw: Vec<u8>,
}

impl Anchor {
    #[verifier::type_invariant]
    closed spec fn well_formed(self) -> bool {
        decoded_anchor(self.raw@) == Some(self.parts)
    }

    /// What validation reads of the anchor.
    pub closed spec fn parts(self) -> AnchorParts {
        self.parts
    }

    /// Strict encoding of the anchor.
    pub closed spec fn raw(self) -> Seq<u8> {
        self.raw@
    }

    /// Whether the proof of the anchor stands at the position of a protocol.
    pub open spec fn serves(self, protocol: ContractId) -> bool {
        self.parts().pos == protocol_pos(
            protocol.0@,
            self.parts().cofactor,
            self.parts().depth,
        )
    }

    /// What is wrong with a proof that does not stand at the position of a protocol.
    pub open spec fn misplaced(self, protocol: ContractId) -> InvalidProof {
        InvalidProof {
            protocol_id: protocol,
            expected: protocol_pos(
                protocol.0@,
                self.parts().cofactor,
                self.parts().depth,
            ) as u32,
            actual: self.parts().pos,
            width: pow2(self.parts().depth as nat) as u32,
        }
    }

    /// Commitment that the anchor makes out of a message under a protocol, unless the proof
    /// stands at another position than the protocol.
    pub open spec fn commitment(self, protocol: ContractId, message: BundleId) -> Option<Seq<u8>> {
        if self.serves(protocol) {
            Some(convolved(self.raw(), protocol.0@, message.0@))
        } else {
            None
        }
    }

    /// Outcome of looking for a commitment of the anchor in a transaction.
    pub open spec fn found(self, commitment: Seq<u8>, tx: TxModel) -> Result<bool, TapretError> {
        dbc_outcome(
            self.parts().method,
            tx.outputs,
            commitment,
            tapret_verified(self.raw(), commitment, tx.outputs),
        )
    }

    /// Outcome of checking that a transaction commits to the anchor and the anchor to a
    /// message under a protocol.
    pub open spec fn verified(
        self,
        protocol: ContractId,
        message: BundleId,
        tx: TxModel,
    ) -> Result<bool, AnchorError> {
        match self.commitment(protocol, message) {
            None => Err(AnchorError::Lnpbp4InvalidProof(self.misplaced(protocol))),
            Some(commitment) => anchor_outcome(self.found(commitment, tx)),
        }
    }

    /// Outcome of checking that a transaction closes seals over a commitment.
    pub open spec fn closed(self, tx: TxModel, seals: Seq<Seal>, commitment: Seq<u8>) -> Result<
        bool,
        SealError,
    > {
        seals_outcome(seals, tx.inputs, self.found(commitment, tx))
    }

    /// Anchor with the given strict encoding. There is none when the bytes are not the
    /// encoding of an anchor.
    pub fn from_strict(raw: Vec<u8>) -> (anchor: Option<Anchor>)
        ensures
            anchor is Some <==> decoded_anchor(raw@) is Some,
            anchor matches Some(anchor) ==> anchor.raw() == raw@ && Some(anchor.parts())
                == decoded_anchor(raw@),
    {
        match decode_anchor(&raw) {
            Some(parts) => Some(Anchor { parts, raw }),
            None => None,
        }
    }

    /// Depth of the multi-protocol tree.
    pub fn depth(&self) -> (depth: u8)
        ensures
            depth == self.parts().depth,
    {
        self.parts.depth
    }

    /// Identifier of the transaction which the anchor is about.
    pub fn txid(&self) -> (txid: Txid)
        ensures
            txid == self.parts().txid,
    {
        self.parts.txid
    }

    /// Whether the commitment of the anchor can be looked for in a transaction.
    pub fn can_read(&self, tx: &Tx) -> (readable: bool)
        ensures
            readable == readable_by(self.parts().method, tx@),
    {
        if self.parts.method == CloseMethod::TapretFirst {
            return true;
        }
        let ghost outs = tx@.outputs;
        let mut i: usize = 0;
        while i < tx.outputs.len()
            invariant
                i <= tx.outputs.len(),
                self.parts.method == CloseMethod::OpretFirst,
                outs == scripts(tx.outputs@),
                forall|j: int| 0 <= j < i ==> (#[trigger] outs[j]).len() > 0,
                forall|j: int| 0 <= j < i ==> !is_op_return(outs[j]),
            decreases tx.outputs.len() - i,
        {
            assert(outs[i as int] == tx.outputs@[i as int]@);
            if tx.outputs[i].len() == 0 {
                assert(outs[i as int].len() == 0);
                return false;
            }
            if tx.outputs[i][0] == 0x6a {
                assert(is_op_return(outs[i as int]));
                return true;
            }
            i = i + 1;
        }
        true
    }

    /// `Anchor::convolve` of `bp`: fails when the position in the proof is not the one that
    /// the protocol has in a tree of that depth and cofactor, and otherwise gives the named
    /// commitment. A proof of 32 levels, which the call panics on, is left out.
    #[verifier::external_body]
    fn bp_convolve(&self, protocol: ContractId, message: BundleId) -> (res: Option<Commitment>)
        requires
            self.well_formed(),
            self.parts().depth < 32,
        ensures
            res is Some <==> self.serves(protocol),
            res matches Some(commitment) ==> commitment.0@ == convolved(
                self.raw(),
                protocol.0@,
                message.0@,
            ),
    {
        BpAnchor::<MerkleProof>::strict_read(UNLIMITED, &*self.raw)
            .unwrap()
            .convolve(ProtocolId::from(protocol.0), Message::from(message.0))
            .ok()
            .map(|commitment| Commitment(commitment.to_byte_array()))
    }

    /// `Anchor::verify` of `bp`: fails as `Anchor::convolve` does, and otherwise looks for the
    /// commitment in the transaction. An OP_RETURN commitment is there when the first
    /// OP_RETURN output pushes it and nothing else; what comes of a tapret commitment is named.
    /// A proof of 32 levels is left out, and so is a transaction with an empty script before its
    /// first OP_RETURN output, which the call panics on when it looks for an OP_RETURN
    /// commitment.
    #[verifier::external_body]
    fn bp_verify(
        &self,
        protocol: ContractId,
        message: BundleId,
        tx: &Tx,
    ) -> (res: Result<bool, Option<TapretError>>)
        requires
            self.well_formed(),
            self.parts().depth < 32,
            tx.well_formed(),
            self.serves(protocol) ==> readable_by(self.parts().method, tx@),
        ensures
            self.commitment(protocol, message) is None ==> res is Err && res->Err_0 is None,
            self.commitment(protocol, message) matches Some(commitment) ==> res == with_reason(
                dbc_outcome(
                    self.parts().method,
                    tx@.outputs,
                    commitment,
                    tapret_verified(self.raw(), commitment, tx@.outputs),
                ),
            ),
    {
        let tx = bp::Tx::strict_read(UNLIMITED, &*tx.raw).unwrap();
        BpAnchor::<MerkleProof>::strict_read(UNLIMITED, &*self.raw)
            .unwrap()
            .verify(ProtocolId::from(protocol.0), Message::from(message.0), &tx)
            .map_err(|err| match err {
                Lnpbp4InvalidProof(_) => None,
                Tapret(KeyEmbedding(AlternativeCommitment(_))) => {
                    Some(TapretError::AlternativeCommitment)
                },
                Tapret(KeyEmbedding(IncorrectOrdering(..))) => Some(TapretError::IncorrectOrdering),
                Tapret(NoTaprootOutput) => Some(TapretError::NoTaprootOutput),
            })
    }

    /// `SealWitness::verify_many_seals` of `single_use_seals`, on the `Witness` of `bp` that
    /// `Witness::with` makes of the transaction and the anchor: fails with what is wrong with
    /// the first wrong seal, and otherwise looks for the commitment in the transaction as
    /// `Anchor::verify` does. The errors come in flat form. Transactions which the
    /// call panics on when it looks for the commitment are left out as for `Anchor::verify`.
    #[verifier::external_body]
    fn bp_verify_many_seals(
        &self,
        tx: &Tx,
        seals: &Vec<Seal>,
        commitment: Commitment,
    ) -> (res: Result<bool, SealFault>)
        requires
            self.well_formed(),
            tx.well_formed(),
            first_seal_fault(seals@, 0, tx@.inputs) is None ==> readable_by(
                self.parts().method,
                tx@,
            ),
        ensures
            unflattened_outcome(res) == seals_outcome(
                seals@,
                tx@.inputs,
                dbc_outcome(
                    self.parts().method,
                    tx@.outputs,
                    commitment.0@,
                    tapret_verified(self.raw(), commitment.0@, tx@.outputs),
                ),
            ),
    {
        Witness::with::<MerkleProof>(
            StrictDecode::strict_read(UNLIMITED, &*tx.raw).unwrap(),
            StrictDecode::strict_read(UNLIMITED, &*self.raw).unwrap()
        ).verify_many_seals(&seals.iter().map(|s| ExplicitSeal::with(
            (s.method as u8).try_into().unwrap(),
            s.txid.map_or(WitnessTx, |txid| txid.0.into()),
            s.vout
        )).collect::<Vec<_>>(), &commitment.0.into()).map_err(|err| match err {
            InconsistentCloseMethod => MixedMethods,
            WitnessNotClosingSeal(o) => Unclosed(o.txid.to_byte_array(), o.vout_u32()),
            NoWitnessTxid => UnknownTx,
            InvalidTapretCommitment(KeyEmbedding(AlternativeCommitment(_))) => AlternativePartner,
            InvalidTapretCommitment(KeyEmbedding(IncorrectOrdering(..))) => DisorderedPartner,
            InvalidTapretCommitment(NoTaprootOutput) => Untaprooted
        })
    }

    /// Number of leaves of the multi-protocol tree.
    fn width(&self) -> (width: u32)
        requires
            self.parts().depth < 32,
        ensures
            width == pow2(self.parts().depth as nat),
    {
        let depth = self.parts.depth;
        let mut width: u32 = 1;
        let mut k: u8 = 0;
        proof {
            lemma2_to64();
        }
        while k < depth
            invariant
                k <= depth < 32,
                width == pow2(k as nat),
            decreases depth - k,
        {
            proof {
                lemma2_to64();
                lemma_pow2_unfold((k + 1) as nat);
                if k + 1 < 31 {
                    lemma_pow2_strictly_increases((k + 1) as nat, 31);
                }
            }
            width = 2 * width;
            k = k + 1;
        }
        width
    }

    /// Position that a protocol has in the multi-protocol tree.
    fn position(&self, protocol: ContractId) -> (pos: u32)
        requires
            self.parts().depth < 32,
        ensures
            pos == protocol_pos(protocol.0@, self.parts().cofactor, self.parts().depth),
    {
        let width = self.width();
        let cofactor = self.parts.cofactor as u32;
        let slots: u64 = if width > cofactor {
            (width - cofactor) as u64
        } else {
            1
        };
        let ghost bytes = protocol.0@;
        let mut i: usize = 32;
        let mut pos: u64 = 0;
        proof {
            assert(bytes.skip(32) =~= Seq::empty());
            lemma_small_mod(0, slots as nat);
        }
        while i > 0
            invariant
                i <= 32,
                bytes == protocol.0@,
                0 < slots <= u32::MAX,
                pos < slots,
                pos == le_value(bytes.skip(i as int)) % (slots as nat),
            decreases i,
        {
            i = i - 1;
            proof {
                let rest = le_value(bytes.skip(i + 1));
                let byte = bytes[i as int] as int;
                assert(bytes.skip(i as int).drop_first() =~= bytes.skip(i + 1));
                lemma_mul_mod_noop_right(256, rest as int, slots as int);
                lemma_add_mod_noop(byte, 256 * rest as int, slots as int);
                lemma_add_mod_noop(byte, 256 * pos as int, slots as int);
            }
            pos = (protocol.0[i] as u64 + 256 * pos) % slots;
        }
        assert(bytes.skip(0) =~= bytes);
        pos as u32
    }

    /// What is wrong with a proof that does not stand at the position of a protocol.
    fn invalid_proof(&self, protocol: ContractId) -> (err: InvalidProof)
        requires
            self.parts().depth < 32,
        ensures
            err == self.misplaced(protocol),
    {
        InvalidProof {
            protocol_id: protocol,
            expected: self.position(protocol),
            actual: self.parts.pos,
            width: self.width(),
        }
    }

    /// Commitment that the anchor makes out of a message under a protocol. A proof of 32 levels
    /// is deeper than a multi-protocol tree can be, and comes to none.
    pub fn convolve(&self, protocol: ContractId, message: BundleId) -> (res: Result<
        Commitment,
        InvalidProof,
    >)
        requires
            self.parts().depth < 32,
        ensures
            match res {
                Ok(commitment) => self.commitment(protocol, message) == Some(commitment.0@),
                Err(err) => self.commitment(protocol, message) is None && err == self.misplaced(
                    protocol,
                ),
            },
    {
        proof {
            use_type_invariant(self);
        }
        match self.bp_convolve(protocol, message) {
            Some(commitment) => Ok(commitment),
            None => Err(self.invalid_proof(protocol)),
        }
    }

    /// Checks that a transaction commits to the anchor and the anchor to a message under a
    /// protocol. A proof of 32 levels is deeper than a multi-protocol tree can be, and is not
    /// checked.
    pub fn verify(&self, protocol: ContractId, message: BundleId, tx: &Tx) -> (res: Result<
        bool,
        AnchorError,
    >)
        requires
            self.parts().depth < 32,
            self.serves(protocol) ==> readable_by(self.parts().method, tx@),
        ensures
            res == self.verified(protocol, message, tx@),
    {
        proof {
            use_type_invariant(self);
            use_type_invariant(tx);
        }
        match self.bp_verify(protocol, message, tx) {
            Ok(found) => Ok(found),
            Err(Some(err)) => Err(AnchorError::Tapret(err)),
            Err(None) => Err(AnchorError::Lnpbp4InvalidProof(self.invalid_proof(protocol))),
        }
    }

    /// Checks that the transaction of the anchor closes seals over a commitment.
    pub fn verify_many_seals(&self, tx: &Tx, seals: &Vec<Seal>, commitment: Commitment) -> (res:
        Result<bool, SealError>)
        requires
            first_seal_fault(seals@, 0, tx@.inputs) is None ==> readable_by(
                self.parts().method,
                tx@,
            ),
        ensures
            res == self.closed(tx@, seals@, commitment.0@),
    {
        proof {
            use_type_invariant(self);
            use_type_invariant(tx);
        }
        match self.bp_verify_many_seals(tx, seals, commitment) {
            Ok(found) => Ok(found),
            Err(fault) => Err(fault.unflatten()),
        }
    }
}

} // verus!
