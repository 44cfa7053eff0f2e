use amplify::confinement::Confined;
use amplify::num::u5;
use amplify::ByteArray;
use bp::dbc::tapret::{TapretPathProof, TAPRET_SCRIPT_COMMITMENT_PREFIX};
use bp::InternalPk;
use commit_verify::mpc;
use commit_verify::{CommitmentId, ConvolveCommit, TryCommitVerify};
use rgb_validation::ids::{BundleId, ContractId, Txid};
use rgb_validation::validation::witness::{
    Anchor, AnchorError, CloseMethod, Commitment, InvalidProof, Outpoint, Seal, SealError,
    TapretError, Tx,
};
use strict_encoding::{StrictEncode, StrictWriter};

const KEY: [u8; 32] = [
    0xc5, 0xf9, 0x34, 0x79, 0x09, 0x3e, 0x2b, 0x8f, 0x72, 0x4a, 0x79, 0x84, 0x4c, 0xc1, 0x09, 0x28,
    0xdd, 0x44, 0xe9, 0xa3, 0x90, 0xb5, 0x39, 0x84, 0x3f, 0xb8, 0x3f, 0xbf, 0x84, 0x27, 0x23, 0xf3,
];

fn contract(n: u8) -> ContractId {
    let mut bytes = [0u8; 32];
    bytes[0] = n;
    ContractId(bytes)
}

fn bundle(n: u8) -> BundleId {
    BundleId([n; 32])
}

fn anchor_bytes(pos: u32, cofactor: u16, path: &[[u8; 32]], proof: &[u8]) -> Vec<u8> {
    let mut raw = vec![0xabu8; 32];
    raw.extend(pos.to_le_bytes());
    raw.extend(cofactor.to_le_bytes());
    raw.push(path.len() as u8);
    for node in path {
        raw.extend(node);
    }
    raw.extend(proof);
    raw
}

fn opret(pos: u32, cofactor: u16, path: &[[u8; 32]]) -> Anchor {
    Anchor::from_strict(anchor_bytes(pos, cofactor, path, &[0])).unwrap()
}

/// Tapret proof with the given encoding of the node partner.
fn tapret(partner: &[u8]) -> Anchor {
    let mut proof = vec![1u8];
    proof.extend(partner);
    proof.push(0);
    proof.extend(KEY);
    Anchor::from_strict(anchor_bytes(0, 0, &[], &proof)).unwrap()
}

fn outpoint(n: u8) -> Outpoint {
    Outpoint { txid: Txid([n; 32]), vout: n as u32 }
}

fn seal(method: CloseMethod, n: u8) -> Seal {
    Seal { method, txid: Some(Txid([n; 32])), vout: n as u32 }
}

fn tx(inputs: &[u8], outputs: &[Vec<u8>]) -> Tx {
    Tx::new(inputs.iter().map(|n| outpoint(*n)).collect(), outputs.to_vec()).unwrap()
}

fn op_return(commitment: Commitment) -> Vec<u8> {
    let mut script = vec![0x6au8, 0x20];
    script.extend(commitment.0);
    script
}

fn p2tr(key: [u8; 32]) -> Vec<u8> {
    let mut script = vec![0x51u8, 0x20];
    script.extend(key);
    script
}

#[test]
fn anchor_is_read_from_its_encoding() {
    assert_eq!(opret(0, 0, &[]).txid(), Txid([0xab; 32]));
    assert!(Anchor::from_strict(vec![]).is_none());
    assert!(Anchor::from_strict(anchor_bytes(0, 0, &[], &[])).is_none());
    assert!(Anchor::from_strict(anchor_bytes(0, 0, &[], &[2])).is_none());
    assert_eq!(opret(0, 0, &[[1; 32]; 31]).depth(), 31);
    // An anchor may have more levels than a tree can have.
    assert_eq!(opret(0, 0, &[[1; 32]; 32]).depth(), 32);
    assert!(Anchor::from_strict(anchor_bytes(0, 0, &[[1; 32]; 33], &[0])).is_none());
}

#[test]
fn anchor_of_a_multi_protocol_tree() {
    let messages = [(3u8, 30u8), (4, 40), (9, 90)];
    let entry = |(p, m): &(u8, u8)| {
        (mpc::ProtocolId::from(contract(*p).0), mpc::Message::from(bundle(*m).0))
    };
    let source = mpc::MultiSource {
        min_depth: u5::with(3),
        messages: Confined::try_from_iter(messages.iter().map(entry)).unwrap(),
    };
    let tree = mpc::MerkleTree::try_commit(&source).unwrap();
    let block = mpc::MerkleBlock::from(&tree);
    for (p, m) in messages {
        let protocol = mpc::ProtocolId::from(contract(p).0);
        let outside = bp::dbc::Anchor {
            txid: bp::Txid::from([0xab; 32]),
            mpc_proof: block.to_merkle_proof(protocol).unwrap(),
            dbc_proof: bp::dbc::Proof::OpretFirst,
        };
        let raw = outside.strict_encode(StrictWriter::in_memory(usize::MAX)).unwrap().unbox();
        let anchor = Anchor::from_strict(raw).unwrap();
        let commitment = anchor.convolve(contract(p), bundle(m)).unwrap();
        let expected = outside.convolve(protocol, mpc::Message::from(bundle(m).0)).unwrap();
        assert_eq!(commitment.0, expected.to_byte_array());
        assert_eq!(commitment.0, block_id(&block));
        let witness = tx(&[1], &[op_return(commitment)]);
        assert_eq!(anchor.verify(contract(p), bundle(m), &witness), Ok(true));
        assert_eq!(anchor.verify(contract(p), bundle(m + 1), &witness), Ok(false));
    }
}

fn block_id(block: &mpc::MerkleBlock) -> [u8; 32] {
    block.commitment_id().to_byte_array()
}

#[test]
fn commitment_depends_on_message_and_protocol() {
    let anchor = opret(0, 0, &[]);
    let commitment = anchor.convolve(contract(1), bundle(1)).unwrap();
    assert_eq!(anchor.convolve(contract(1), bundle(1)), Ok(commitment));
    assert_ne!(anchor.convolve(contract(1), bundle(2)), Ok(commitment));
    assert_ne!(anchor.convolve(contract(2), bundle(1)), Ok(commitment));
    assert_ne!(commitment.0, bundle(1).0);
}

#[test]
fn position_is_that_of_the_protocol() {
    let path = [[5u8; 32]; 3];
    // Eight leaves.
    assert!(opret(3, 0, &path).convolve(contract(11), bundle(1)).is_ok());
    assert!(opret(2, 0, &path).convolve(contract(11), bundle(1)).is_err());
    // Seven leaves are left by the cofactor.
    assert!(opret(4, 1, &path).convolve(contract(11), bundle(1)).is_ok());
    assert!(opret(3, 1, &path).convolve(contract(11), bundle(1)).is_err());
    // A cofactor of the width of the tree or more leaves one.
    assert!(opret(0, 8, &path).convolve(contract(11), bundle(1)).is_ok());
    assert!(opret(0, 9, &path).convolve(contract(11), bundle(1)).is_ok());
    assert!(opret(1, 9, &path).convolve(contract(11), bundle(1)).is_err());
}

#[test]
fn misplaced_proof_is_invalid() {
    let anchor = opret(2, 1, &[[5; 32]; 3]);
    let witness = tx(&[], &[vec![0x6a]]);
    let err = InvalidProof { protocol_id: contract(11), expected: 4, actual: 2, width: 8 };
    assert_eq!(anchor.convolve(contract(11), bundle(1)), Err(err));
    assert_eq!(
        anchor.verify(contract(11), bundle(1), &witness),
        Err(AnchorError::Lnpbp4InvalidProof(err))
    );
}

#[test]
fn positions_of_long_identifiers() {
    // The identifier 2^255 + 2^8 * 7 + 3, in a tree of 2^31 leaves less 5.
    let mut bytes = [0u8; 32];
    bytes[0] = 3;
    bytes[1] = 7;
    bytes[31] = 0x80;
    let anchor = opret(u32::MAX, 5, &[[1; 32]; 31]);
    let err = anchor.convolve(ContractId(bytes), bundle(1)).unwrap_err();
    assert_eq!(err.width, 0x8000_0000);
    let slots: u64 = 0x8000_0000 - 5;
    let mut expected: u64 = 1;
    for _ in 0..255 {
        expected = expected * 2 % slots;
    }
    expected = (expected + 256 * 7 + 3) % slots;
    assert_eq!(err.expected as u64, expected);
    // A proof at the position that the error tells of is in place.
    assert!(opret(err.expected, 5, &[[1; 32]; 31]).convolve(ContractId(bytes), bundle(1)).is_ok());
}

#[test]
fn first_op_return_output_counts() {
    let anchor = opret(0, 0, &[]);
    let commitment = anchor.convolve(contract(1), bundle(1)).unwrap();
    let good = op_return(commitment);
    let other = op_return(Commitment([9; 32]));
    let verify = |outputs: &[Vec<u8>]| anchor.verify(contract(1), bundle(1), &tx(&[], outputs));
    assert_eq!(verify(&[good.clone()]), Ok(true));
    assert_eq!(verify(&[vec![0x51], good.clone(), other.clone()]), Ok(true));
    assert_eq!(verify(&[other.clone(), good.clone()]), Ok(false));
    assert_eq!(verify(&[vec![0x51]]), Ok(false));
    assert_eq!(verify(&[]), Ok(false));
    let mut longer = good.clone();
    longer.push(0);
    assert_eq!(verify(&[longer]), Ok(false));
    // An empty script does no harm behind the output that counts.
    assert_eq!(verify(&[good, vec![]]), Ok(true));
}

#[test]
fn tapret_commitment_is_found() {
    let anchor = tapret(&[0]);
    let commitment = anchor.convolve(contract(1), bundle(1)).unwrap();
    let key = InternalPk::from_byte_array(KEY).unwrap();
    let message = mpc::Commitment::from(commitment.0);
    let (output, _) = key.convolve_commit(&TapretPathProof::root(0), &message).unwrap();
    let witness = tx(&[1], &[vec![], p2tr(output.serialize())]);
    assert_eq!(anchor.verify(contract(1), bundle(1), &witness), Ok(true));
    assert_eq!(anchor.verify(contract(1), bundle(2), &witness), Ok(false));
    let seals = vec![seal(CloseMethod::TapretFirst, 1)];
    assert_eq!(anchor.verify_many_seals(&witness, &seals, commitment), Ok(true));
    assert_eq!(anchor.verify_many_seals(&witness, &seals, Commitment([0; 32])), Ok(false));
}

#[test]
fn tapret_without_taproot_output() {
    let anchor = tapret(&[0]);
    let witness = tx(&[], &[vec![0x6a]]);
    assert_eq!(
        anchor.verify(contract(1), bundle(1), &witness),
        Err(AnchorError::Tapret(TapretError::NoTaprootOutput))
    );
}

#[test]
fn tapret_beside_an_alternative_commitment() {
    let mut partner = vec![1u8, 2];
    partner.extend(TAPRET_SCRIPT_COMMITMENT_PREFIX);
    partner.extend([0u8; 33]);
    let witness = tx(&[], &[p2tr(KEY)]);
    assert_eq!(
        tapret(&partner).verify(contract(1), bundle(1), &witness),
        Err(AnchorError::Tapret(TapretError::AlternativeCommitment))
    );
}

#[test]
fn tapret_beside_a_partner_in_wrong_order() {
    let mut partner = vec![1u8, 0];
    partner.extend([0xffu8; 32]);
    let witness = tx(&[1], &[p2tr(KEY)]);
    let anchor = tapret(&partner);
    assert_eq!(
        anchor.verify(contract(1), bundle(1), &witness),
        Err(AnchorError::Tapret(TapretError::IncorrectOrdering))
    );
    let seals = vec![seal(CloseMethod::TapretFirst, 1)];
    assert_eq!(
        anchor.verify_many_seals(&witness, &seals, Commitment([0; 32])),
        Err(SealError::InvalidTapretCommitment(TapretError::IncorrectOrdering))
    );
}

#[test]
fn reasons_of_invalid_tapret_commitments() {
    let seals = vec![seal(CloseMethod::TapretFirst, 1)];
    let mut partner = vec![1u8, 2];
    partner.extend(TAPRET_SCRIPT_COMMITMENT_PREFIX);
    partner.extend([0u8; 33]);
    let witness = tx(&[1], &[p2tr(KEY)]);
    assert_eq!(
        tapret(&partner).verify_many_seals(&witness, &seals, Commitment([0; 32])),
        Err(SealError::InvalidTapretCommitment(TapretError::AlternativeCommitment))
    );
    let witness = tx(&[1], &[vec![0x6a]]);
    assert_eq!(
        tapret(&[0]).verify_many_seals(&witness, &seals, Commitment([0; 32])),
        Err(SealError::InvalidTapretCommitment(TapretError::NoTaprootOutput))
    );
}

#[test]
fn seals_are_closed_by_spending_them() {
    let anchor = opret(0, 0, &[]);
    let commitment = anchor.convolve(contract(1), bundle(1)).unwrap();
    let witness = tx(&[1, 2, 3], &[op_return(commitment)]);
    let close = |seals: &[Seal]| anchor.verify_many_seals(&witness, &seals.to_vec(), commitment);
    let opret_seal = |n: u8| seal(CloseMethod::OpretFirst, n);
    assert_eq!(close(&[]), Ok(true));
    assert_eq!(close(&[opret_seal(1)]), Ok(true));
    assert_eq!(close(&[opret_seal(3), opret_seal(1)]), Ok(true));
    assert_eq!(
        close(&[opret_seal(1), opret_seal(4), opret_seal(5)]),
        Err(SealError::WitnessNotClosingSeal(outpoint(4)))
    );
    let other_output = Seal { vout: 7, ..opret_seal(1) };
    assert_eq!(
        close(&[other_output]),
        Err(SealError::WitnessNotClosingSeal(Outpoint { txid: Txid([1; 32]), vout: 7 }))
    );
}

#[test]
fn seals_need_a_transaction() {
    let anchor = opret(0, 0, &[]);
    let witness = tx(&[1], &[vec![0x6a]]);
    let pending = Seal { method: CloseMethod::OpretFirst, txid: None, vout: 0 };
    let seals = vec![seal(CloseMethod::OpretFirst, 1), pending];
    assert_eq!(
        anchor.verify_many_seals(&witness, &seals, Commitment([0; 32])),
        Err(SealError::NoWitnessTxid)
    );
}

#[test]
fn seals_are_closed_in_one_way() {
    let anchor = opret(0, 0, &[]);
    let witness = tx(&[1, 2], &[vec![0x6a]]);
    let seals = vec![seal(CloseMethod::OpretFirst, 1), seal(CloseMethod::TapretFirst, 2)];
    assert_eq!(
        anchor.verify_many_seals(&witness, &seals, Commitment([0; 32])),
        Err(SealError::InconsistentCloseMethod)
    );
    // The way in which the seals are closed need not be that of the anchor.
    let seals = vec![seal(CloseMethod::TapretFirst, 2)];
    assert_eq!(anchor.verify_many_seals(&witness, &seals, Commitment([0; 32])), Ok(false));
}

#[test]
fn empty_scripts_before_an_op_return_output() {
    let anchor = opret(0, 0, &[]);
    assert!(anchor.can_read(&tx(&[], &[])));
    assert!(anchor.can_read(&tx(&[], &[vec![0x51], vec![0x6a], vec![]])));
    assert!(!anchor.can_read(&tx(&[], &[vec![0x51], vec![], vec![0x6a]])));
    assert!(tapret(&[0]).can_read(&tx(&[], &[vec![]])));
}

#[test]
fn unreadable_transaction_that_is_not_looked_through() {
    let unreadable = tx(&[1], &[vec![]]);
    let err = InvalidProof { protocol_id: contract(11), expected: 3, actual: 2, width: 8 };
    assert_eq!(
        opret(2, 0, &[[5; 32]; 3]).verify(contract(11), bundle(1), &unreadable),
        Err(AnchorError::Lnpbp4InvalidProof(err))
    );
    let seals = vec![seal(CloseMethod::OpretFirst, 2)];
    assert_eq!(
        opret(0, 0, &[]).verify_many_seals(&unreadable, &seals, Commitment([0; 32])),
        Err(SealError::WitnessNotClosingSeal(outpoint(2)))
    );
}
