use rgb_validation::contract::{
    AnchoredBundle, AssignedSeal, ConsignmentApi, Extension, Genesis, History, Input, OpRef,
    Opout, Redeemed, Transition, TransitionBundle, TypedAssigns,
};
use rgb_validation::ids::{BundleId, ContractId, OpId, SchemaId, SecretSeal, Txid};
use rgb_validation::index::OpIdSet;
use rgb_validation::validation::resolver::{ResolveTx, TxResolverError};
use rgb_validation::validation::status::{Failure, Status, Validity, Warning};
use rgb_validation::validation::validator::Validator;
use rgb_validation::validation::witness::{
    Anchor, AnchorError, CloseMethod, InvalidProof, Outpoint, Seal, SealError, Tx,
};
use rgb_validation::validation::witnessing::{input_seal, report_closing, validate_reply};
use std::cell::RefCell;

const STATE: u16 = 1;

fn op(n: u8) -> OpId {
    OpId([n; 32])
}

fn txid(n: u8) -> Txid {
    Txid([n; 32])
}

fn bundle_id(n: u8) -> BundleId {
    BundleId([n; 32])
}

fn secret(n: u8) -> SecretSeal {
    SecretSeal([n; 32])
}

fn contract_id() -> ContractId {
    ContractId([0; 32])
}

/// Assignment to the output `n` of the transaction `n`.
fn revealed(n: u8) -> AssignedSeal {
    AssignedSeal {
        concealed: secret(n),
        revealed: Some(Seal {
            method: CloseMethod::OpretFirst,
            txid: Some(txid(n)),
            vout: n as u32,
        }),
    }
}

fn concealed(n: u8) -> AssignedSeal {
    AssignedSeal { concealed: secret(n), revealed: None }
}

fn assigns(seals: Vec<AssignedSeal>) -> Vec<TypedAssigns> {
    vec![TypedAssigns { ty: STATE, seals }]
}

fn out(n: u8, ty: u16, no: u16) -> Opout {
    Opout { op: op(n), ty, no }
}

fn spending(n: u8, prev: &[Opout], seals: Vec<AssignedSeal>) -> Transition {
    Transition {
        id: op(n),
        inputs: prev.iter().map(|prev_out| Input { prev_out: *prev_out }).collect(),
        assignments: assigns(seals),
        valencies: vec![],
    }
}

/// Anchor in the transaction `n`, with a proof that stands at the given position.
fn anchor_at(n: u8, pos: u32) -> Anchor {
    let mut raw = vec![n; 32];
    raw.extend(pos.to_le_bytes());
    raw.extend([0, 0, 0, 0]);
    Anchor::from_strict(raw).unwrap()
}

fn anchored(n: u8, transitions: Vec<Transition>) -> AnchoredBundle {
    AnchoredBundle {
        anchor: anchor_at(n, 0),
        bundle: TransitionBundle {
            bundle_id: bundle_id(n),
            items: transitions.into_iter().map(Some).collect(),
            consistent: true,
        },
    }
}

struct Consignment {
    schema_id: SchemaId,
    schema_faults: Vec<u32>,
    faults: Vec<(OpId, u32)>,
    genesis: Genesis,
    bundles: Vec<AnchoredBundle>,
    extensions: Vec<Extension>,
    terminals: Vec<(BundleId, SecretSeal)>,
    /// Transitions that are known without being revealed by a bundle.
    loose: Vec<(BundleId, Transition)>,
    checked: RefCell<Vec<OpId>>,
}

impl Consignment {
    /// Genesis `0` with assignments to the outputs 100 and 101 and to a concealed seal, and
    /// with the valency 7.
    fn new(bundles: Vec<AnchoredBundle>, terminals: Vec<(BundleId, SecretSeal)>) -> Self {
        Consignment {
            schema_id: SchemaId([5; 32]),
            schema_faults: vec![],
            faults: vec![],
            genesis: Genesis {
                id: op(0),
                contract_id: contract_id(),
                schema_id: SchemaId([5; 32]),
                assignments: assigns(vec![revealed(100), revealed(101), concealed(102)]),
                valencies: vec![7],
            },
            bundles,
            extensions: vec![],
            terminals,
            loose: vec![],
            checked: RefCell::new(vec![]),
        }
    }

    fn transitions(&self) -> Vec<(BundleId, &Transition)> {
        let mut found: Vec<(BundleId, &Transition)> = vec![];
        for anchored in &self.bundles {
            for item in &anchored.bundle.items {
                if let Some(transition) = item {
                    found.push((anchored.bundle.bundle_id, transition));
                }
            }
        }
        found.extend(self.loose.iter().map(|(id, transition)| (*id, transition)));
        found
    }
}

impl ConsignmentApi for Consignment {
    // Contracts alone speak of it.
    fn history(&self) -> History {
        unreachable!()
    }

    fn schema_id(&self) -> SchemaId {
        self.schema_id
    }

    fn verify_schema(&self) -> Status {
        let mut status = Status::default();
        for rule in &self.schema_faults {
            status.add_failure(Failure::Schema { subject: None, rule: *rule });
        }
        status
    }

    fn validate_operation(&self, operation: OpRef<'_>) -> Status {
        self.checked.borrow_mut().push(operation.id());
        let mut status = Status::default();
        for (subject, rule) in &self.faults {
            if *subject == operation.id() {
                status.add_failure(Failure::Schema { subject: Some(*subject), rule: *rule });
            }
        }
        status
    }

    fn genesis(&self) -> &Genesis {
        &self.genesis
    }

    fn anchored_bundles(&self) -> &Vec<AnchoredBundle> {
        &self.bundles
    }

    fn terminals(&self) -> &Vec<(BundleId, SecretSeal)> {
        &self.terminals
    }

    fn known_transitions_by_bundle_id(&self, bundle_id: BundleId) -> Option<Vec<&Transition>> {
        let mut transitions: Vec<&Transition> = vec![];
        for (id, transition) in self.transitions() {
            if id == bundle_id {
                transitions.push(transition);
            }
        }
        if transitions.is_empty() { None } else { Some(transitions) }
    }

    fn operation(&self, opid: OpId) -> Option<OpRef<'_>> {
        if opid == self.genesis.id {
            return Some(OpRef::Genesis(&self.genesis));
        }
        for (_, transition) in self.transitions() {
            if transition.id == opid {
                return Some(OpRef::Transition(transition));
            }
        }
        self.extensions.iter().find(|e| e.id == opid).map(OpRef::Extension)
    }

    fn op_ids_except(&self, known: &OpIdSet) -> Vec<OpId> {
        let mut ids = vec![self.genesis.id];
        ids.extend(self.transitions().iter().map(|(_, transition)| transition.id));
        ids.extend(self.extensions.iter().map(|extension| extension.id));
        ids.retain(|id| !known.contains(*id));
        ids
    }
}

/// OP_RETURN script with the commitment to the bundle `n`.
fn commitment_script(n: u8) -> Vec<u8> {
    let commitment = anchor_at(n, 0).convolve(contract_id(), bundle_id(n)).unwrap();
    let mut script = vec![0x6a, 0x20];
    script.extend(commitment.0);
    script
}

/// Gives transactions by number, each with the outputs that it spends, and with the commitment
/// to a bundle: that of the same number, unless another is given.
struct Resolver {
    known: Vec<(u8, Vec<u8>, u8)>,
    asked: RefCell<Vec<Txid>>,
}

impl Resolver {
    fn new(known: &[(u8, &[u8])]) -> Self {
        Resolver {
            known: known.iter().map(|(n, inputs)| (*n, inputs.to_vec(), *n)).collect(),
            asked: RefCell::new(vec![]),
        }
    }

    fn with(mut self, n: u8, inputs: &[u8], bundle: u8) -> Self {
        self.known.push((n, inputs.to_vec(), bundle));
        self
    }
}

fn witness_tx(inputs: &[u8], outputs: Vec<Vec<u8>>) -> Tx {
    let spent = inputs.iter().map(|n| Outpoint { txid: txid(*n), vout: *n as u32 }).collect();
    Tx::new(spent, outputs).unwrap()
}

impl ResolveTx for Resolver {
    // Contracts alone speak of it.
    fn may_reply(&self, _: Txid, _: Result<Tx, TxResolverError>) -> bool {
        unreachable!()
    }

    fn resolve_tx(&self, id: Txid) -> Result<Tx, TxResolverError> {
        self.asked.borrow_mut().push(id);
        match self.known.iter().find(|(n, _, _)| txid(*n) == id) {
            Some((_, inputs, bundle)) => Ok(witness_tx(inputs, vec![commitment_script(*bundle)])),
            None => Err(TxResolverError::Unknown(id)),
        }
    }
}

fn validate(consignment: &Consignment, resolver: &Resolver) -> Status {
    Validator::validate(consignment, resolver)
}

/// Transition 1 from the genesis and transition 2 from it, in the bundles 1 and 2.
fn two_steps() -> Consignment {
    let first = spending(1, &[out(0, STATE, 0)], vec![revealed(110)]);
    let second = spending(2, &[out(1, STATE, 0)], vec![concealed(120)]);
    Consignment::new(
        vec![anchored(1, vec![first]), anchored(2, vec![second])],
        vec![(bundle_id(2), secret(120))],
    )
}

fn both_witnesses() -> Resolver {
    Resolver::new(&[(1, &[100]), (2, &[110])])
}

#[test]
fn history_in_order_is_valid() {
    let consignment = two_steps();
    let resolver = both_witnesses();
    let status = validate(&consignment, &resolver);
    assert_eq!(status, Status::default());
    assert_eq!(status.validity(), Validity::Valid);
    // The genesis comes first, then each end with what it builds upon.
    assert_eq!(*consignment.checked.borrow(), vec![op(0), op(2), op(1)]);
    assert_eq!(*resolver.asked.borrow(), vec![txid(2), txid(1)]);
}

#[test]
fn history_without_ends_is_valid() {
    let consignment = Consignment::new(vec![], vec![]);
    let status = validate(&consignment, &Resolver::new(&[]));
    assert_eq!(status, Status::default());
    assert_eq!(*consignment.checked.borrow(), vec![op(0)]);
}

#[test]
fn unmined_terminal_is_forgiven() {
    let consignment = two_steps();
    let status = validate(&consignment, &Resolver::new(&[(1, &[100])]));
    assert_eq!(status.failures, vec![]);
    assert_eq!(status.unresolved_txids, vec![]);
    assert_eq!(status.unmined_terminals, vec![txid(2)]);
    assert_eq!(status.warnings, vec![Warning::TerminalWitnessNotMined(txid(2))]);
    assert_eq!(status.validity(), Validity::ValidExceptEndpoints);
}

#[test]
fn unobtained_ancestor_is_not_forgiven() {
    let consignment = two_steps();
    let status = validate(&consignment, &Resolver::new(&[(2, &[110])]));
    assert_eq!(status.failures, vec![Failure::SealNoWitnessTx(txid(1))]);
    assert_eq!(status.unresolved_txids, vec![txid(1)]);
    assert_eq!(status.unmined_terminals, vec![]);
    assert_eq!(status.validity(), Validity::UnresolvedTransactions);
}

#[test]
fn invalid_schema_stops_validation() {
    let mut consignment = two_steps();
    consignment.schema_faults = vec![3, 4];
    consignment.faults = vec![(op(0), 10)];
    consignment.bundles[0].bundle.consistent = false;
    let resolver = both_witnesses();
    let status = validate(&consignment, &resolver);
    assert_eq!(
        status.failures,
        vec![
            Failure::BundleInvalid(bundle_id(1)),
            Failure::Schema { subject: None, rule: 3 },
            Failure::Schema { subject: None, rule: 4 },
        ]
    );
    assert!(consignment.checked.borrow().is_empty());
    assert!(resolver.asked.borrow().is_empty());
}

#[test]
fn other_schema_stops_validation() {
    let mut consignment = two_steps();
    consignment.schema_id = SchemaId([6; 32]);
    let resolver = both_witnesses();
    let status = validate(&consignment, &resolver);
    assert_eq!(
        status.failures,
        vec![Failure::SchemaMismatch {
            expected: SchemaId([5; 32]),
            actual: SchemaId([6; 32]),
        }]
    );
    assert_eq!(status.warnings, vec![]);
    assert!(consignment.checked.borrow().is_empty());
    assert!(resolver.asked.borrow().is_empty());
}

#[test]
fn failures_do_not_stop_validation() {
    let mut consignment = two_steps();
    consignment.faults = vec![(op(1), 11), (op(2), 12), (op(0), 10)];
    let status = validate(&consignment, &both_witnesses());
    let fault = |n: u8, rule: u32| Failure::Schema { subject: Some(op(n)), rule };
    assert_eq!(status.failures, vec![fault(0, 10), fault(2, 12), fault(1, 11)]);
    assert_eq!(status.validity(), Validity::Invalid);
}

#[test]
fn inconsistent_bundle_does_not_stop_validation() {
    let mut consignment = two_steps();
    consignment.bundles[1].bundle.consistent = false;
    consignment.faults = vec![(op(0), 10)];
    let resolver = both_witnesses();
    let status = validate(&consignment, &resolver);
    assert_eq!(
        status.failures,
        vec![
            Failure::BundleInvalid(bundle_id(2)),
            Failure::Schema { subject: Some(op(0)), rule: 10 },
        ]
    );
    assert_eq!(*consignment.checked.borrow(), vec![op(0), op(2), op(1)]);
    assert_eq!(*resolver.asked.borrow(), vec![txid(2), txid(1)]);
}

#[test]
fn terminal_of_an_unknown_bundle() {
    let mut consignment = two_steps();
    consignment.terminals.insert(0, (bundle_id(9), secret(1)));
    consignment.faults = vec![(op(1), 11)];
    let status = validate(&consignment, &both_witnesses());
    assert_eq!(
        status.failures,
        vec![
            Failure::BundleInvalid(bundle_id(9)),
            Failure::Schema { subject: Some(op(1)), rule: 11 },
        ]
    );
    assert_eq!(status.warnings, vec![]);
}

#[test]
fn witness_without_the_commitment() {
    let consignment = two_steps();
    // The transaction spends what it has to, but holds the commitment to another bundle.
    let transition = spending(2, &[out(1, STATE, 0)], vec![]);
    let tx = witness_tx(&[110], vec![commitment_script(1)]);
    let status =
        validate_reply(&consignment, &transition, bundle_id(2), &anchor_at(2, 0), Ok(tx));
    assert_eq!(
        status.failures,
        vec![
            Failure::SealInvalid(op(2), txid(2), SealError::CommitmentAbsent),
            Failure::AnchorInvalid(op(2), txid(2), AnchorError::CommitmentAbsent),
        ]
    );
}

#[test]
fn ancestors_are_committed_with_their_own_bundles() {
    let mut consignment = two_steps();
    let resolver = both_witnesses();
    assert_eq!(validate(&consignment, &resolver), Status::default());
    // With another identifier of its bundle, the commitment to the first transition is not there.
    consignment.bundles[0].bundle.bundle_id = bundle_id(8);
    let status = validate(&consignment, &resolver);
    assert_eq!(
        status.failures,
        vec![
            Failure::SealInvalid(op(1), txid(1), SealError::CommitmentAbsent),
            Failure::AnchorInvalid(op(1), txid(1), AnchorError::CommitmentAbsent),
        ]
    );
}

#[test]
fn terminal_without_its_seal() {
    let mut consignment = two_steps();
    consignment.terminals = vec![(bundle_id(2), secret(121))];
    let status = validate(&consignment, &both_witnesses());
    assert_eq!(status.failures, vec![]);
    assert_eq!(status.warnings, vec![Warning::TerminalSealAbsent(op(2), secret(121))]);
}

#[test]
fn terminal_given_twice() {
    let mut consignment = two_steps();
    consignment.terminals.push((bundle_id(2), secret(120)));
    consignment.terminals.push((bundle_id(2), secret(9)));
    let resolver = both_witnesses();
    let status = validate(&consignment, &resolver);
    assert_eq!(
        status.warnings,
        vec![
            Warning::TerminalDuplication(op(2), secret(120)),
            Warning::TerminalSealAbsent(op(2), secret(9)),
            Warning::TerminalDuplication(op(2), secret(9)),
        ]
    );
    assert_eq!(*resolver.asked.borrow(), vec![txid(2), txid(1)]);
}

#[test]
fn operation_beside_the_history() {
    let mut consignment = two_steps();
    let aside = spending(3, &[out(0, STATE, 1)], vec![revealed(130)]);
    consignment.bundles.push(anchored(3, vec![aside]));
    let resolver = both_witnesses();
    let status = validate(&consignment, &resolver);
    assert_eq!(status.failures, vec![]);
    assert_eq!(status.warnings, vec![Warning::ExcessiveOperation(op(3))]);
    assert_eq!(*resolver.asked.borrow(), vec![txid(2), txid(1)]);
}

#[test]
fn common_ancestor_is_checked_once() {
    // 2 and 3 both spend what 1 assigns, and 4 spends what 2 and 3 assign.
    let first = spending(1, &[out(0, STATE, 0)], vec![revealed(110), revealed(111)]);
    let second = spending(2, &[out(1, STATE, 0)], vec![revealed(120)]);
    let third = spending(3, &[out(1, STATE, 1)], vec![revealed(130)]);
    let fourth = spending(4, &[out(2, STATE, 0), out(3, STATE, 0)], vec![concealed(140)]);
    let consignment = Consignment::new(
        vec![
            anchored(1, vec![first]),
            anchored(2, vec![second, third]),
            anchored(4, vec![fourth]),
        ],
        vec![(bundle_id(4), secret(140))],
    );
    let resolver = Resolver::new(&[(1, &[100]), (2, &[110, 111]), (4, &[120, 130])]);
    let status = validate(&consignment, &resolver);
    assert_eq!(status, Status::default());
    assert_eq!(*consignment.checked.borrow(), vec![op(0), op(4), op(2), op(3), op(1)]);
    // One question for each transition, though 2 and 3 have one anchor.
    assert_eq!(*resolver.asked.borrow(), vec![txid(4), txid(2), txid(2), txid(1)]);
}

#[test]
fn spending_an_unknown_operation() {
    let first = spending(1, &[out(50, STATE, 0)], vec![concealed(110)]);
    let consignment =
        Consignment::new(vec![anchored(1, vec![first])], vec![(bundle_id(1), secret(110))]);
    let status = validate(&consignment, &Resolver::new(&[(1, &[])]));
    assert_eq!(
        status.failures,
        vec![Failure::OperationAbsent(op(50)), Failure::TransitionAbsent(op(50))]
    );
}

#[test]
fn spending_what_is_not_assigned() {
    let prev = [out(0, 2, 0), out(0, STATE, 3), out(0, STATE, 2), out(0, STATE, 0)];
    let first = spending(1, &prev, vec![concealed(110)]);
    let consignment =
        Consignment::new(vec![anchored(1, vec![first])], vec![(bundle_id(1), secret(110))]);
    let status = validate(&consignment, &Resolver::new(&[(1, &[100])]));
    assert_eq!(
        status.failures,
        vec![
            Failure::NoPrevState { opid: op(1), prev_id: op(0), state_type: 2 },
            Failure::NoPrevOut(op(1), out(0, STATE, 3)),
            Failure::ConfidentialSeal(out(0, STATE, 2)),
        ]
    );
}

#[test]
fn witness_that_spends_something_else() {
    let consignment = two_steps();
    let status = validate(&consignment, &Resolver::new(&[(1, &[100]), (2, &[100])]));
    let unclosed = Outpoint { txid: txid(110), vout: 110 };
    assert_eq!(
        status.failures,
        vec![Failure::SealInvalid(op(2), txid(2), SealError::WitnessNotClosingSeal(unclosed))]
    );
}

#[test]
fn transition_without_an_anchor() {
    let mut consignment = two_steps();
    let loose = spending(3, &[out(1, STATE, 0)], vec![concealed(130)]);
    consignment.loose.push((bundle_id(3), loose));
    consignment.terminals = vec![(bundle_id(3), secret(130))];
    consignment.bundles.pop();
    let resolver = Resolver::new(&[(1, &[100])]);
    let status = validate(&consignment, &resolver);
    assert_eq!(status.failures, vec![Failure::NotAnchored(op(3))]);
    assert_eq!(*resolver.asked.borrow(), vec![txid(1)]);
}

#[test]
fn anchor_of_another_protocol() {
    let mut consignment = two_steps();
    consignment.bundles[1].anchor = anchor_at(2, 1);
    let err = InvalidProof { protocol_id: contract_id(), expected: 0, actual: 1, width: 1 };
    let status = validate(&consignment, &both_witnesses());
    assert_eq!(
        status.failures,
        vec![
            Failure::NotInAnchor(op(2), txid(2)),
            Failure::MpcInvalid(op(2), txid(2)),
            Failure::AnchorInvalid(op(2), txid(2), AnchorError::Lnpbp4InvalidProof(err)),
        ]
    );
    // Without the transaction there is nothing to hold the anchor against.
    let status = validate(&consignment, &Resolver::new(&[(1, &[100])]));
    assert_eq!(status.failures, vec![Failure::NotInAnchor(op(2), txid(2))]);
    assert_eq!(status.unmined_terminals, vec![txid(2)]);
}

/// The second transition of two steps once more, in the bundle 7.
fn second_step_twice() -> Consignment {
    let mut consignment = two_steps();
    let again = spending(2, &[out(1, STATE, 0)], vec![concealed(120)]);
    consignment.bundles.push(anchored(7, vec![again]));
    consignment
}

#[test]
fn end_is_taken_with_the_bundle_of_its_terminal() {
    // The anchor is that of the later bundle, but the terminal names the other one.
    let consignment = second_step_twice();
    let resolver = Resolver::new(&[(1, &[100])]).with(7, &[110], 2);
    let status = validate(&consignment, &resolver);
    assert_eq!(status.failures, vec![]);
    assert_eq!(*resolver.asked.borrow(), vec![txid(7), txid(1)]);
    let status = validate(&consignment, &Resolver::new(&[(1, &[100]), (7, &[110])]));
    assert_eq!(
        status.failures,
        vec![
            Failure::SealInvalid(op(2), txid(7), SealError::CommitmentAbsent),
            Failure::AnchorInvalid(op(2), txid(7), AnchorError::CommitmentAbsent),
        ]
    );
}

#[test]
fn ancestor_is_taken_with_the_bundle_that_it_is_in() {
    let mut consignment = second_step_twice();
    consignment.bundles[1].bundle.items.clear();
    consignment.bundles[2].bundle.items =
        vec![Some(spending(2, &[out(1, STATE, 0)], vec![revealed(120)]))];
    let third = spending(3, &[out(2, STATE, 0)], vec![concealed(130)]);
    consignment.bundles.push(anchored(3, vec![third]));
    consignment.terminals = vec![(bundle_id(3), secret(130))];
    let resolver = Resolver::new(&[(1, &[100]), (7, &[110]), (3, &[120])]);
    assert_eq!(validate(&consignment, &resolver), Status::default());
    assert_eq!(*resolver.asked.borrow(), vec![txid(3), txid(7), txid(1)]);
}

#[test]
fn deep_anchor_that_is_not_reached() {
    let mut consignment = two_steps();
    let aside = spending(3, &[out(0, STATE, 1)], vec![revealed(130)]);
    let mut raw = vec![3; 32];
    raw.extend([0, 0, 0, 0, 0, 0, 32]);
    raw.extend([1; 32 * 32]);
    raw.push(0);
    let mut bundle = anchored(3, vec![aside]);
    bundle.anchor = Anchor::from_strict(raw).unwrap();
    consignment.bundles.push(bundle);
    let status = validate(&consignment, &both_witnesses());
    assert_eq!(status.failures, vec![]);
    assert_eq!(status.warnings, vec![Warning::ExcessiveOperation(op(3))]);
}

#[test]
fn extension_redeems_valencies() {
    let mut consignment = two_steps();
    consignment.extensions.push(Extension {
        id: op(30),
        redeemed: vec![
            Redeemed { valency: 7, prev_id: op(0) },
            Redeemed { valency: 8, prev_id: op(0) },
            Redeemed { valency: 7, prev_id: op(60) },
        ],
        assignments: assigns(vec![revealed(103)]),
        valencies: vec![],
    });
    let third = spending(3, &[out(30, STATE, 0)], vec![concealed(130)]);
    consignment.bundles.push(anchored(3, vec![third]));
    consignment.terminals = vec![(bundle_id(3), secret(130))];
    let status = validate(&consignment, &Resolver::new(&[(3, &[103])]));
    assert_eq!(
        status.failures,
        vec![
            Failure::NoPrevValency { opid: op(30), prev_id: op(0), valency: 8 },
            Failure::ValencyNoParent { opid: op(30), prev_id: op(60), valency: 7 },
        ]
    );
    assert_eq!(*consignment.checked.borrow(), vec![op(0), op(3), op(30)]);
    assert_eq!(
        status.warnings,
        vec![Warning::ExcessiveOperation(op(1)), Warning::ExcessiveOperation(op(2))]
    );
}

#[test]
fn seal_of_an_input() {
    let consignment = two_steps();
    let spent = Input { prev_out: out(1, STATE, 0) };
    assert_eq!(input_seal(&consignment, op(2), spent), Ok(revealed(110).revealed.unwrap()));
    let absent = Input { prev_out: out(40, STATE, 0) };
    assert_eq!(
        input_seal(&consignment, op(2), absent),
        Err(Failure::OperationAbsent(op(40)))
    );
}

#[test]
fn reply_of_the_resolver() {
    let consignment = two_steps();
    let transition = spending(2, &[out(1, STATE, 0)], vec![]);
    let anchor = anchor_at(2, 0);
    let tx = witness_tx(&[110], vec![commitment_script(2)]);
    let status = validate_reply(&consignment, &transition, bundle_id(2), &anchor, Ok(tx));
    assert_eq!(status, Status::default());
    let reply = Err(TxResolverError::Other(txid(2), "no connection".to_string()));
    let status = validate_reply(&consignment, &transition, bundle_id(2), &anchor, reply);
    assert_eq!(status.unresolved_txids, vec![txid(2)]);
    assert_eq!(status.failures, vec![Failure::SealNoWitnessTx(txid(2))]);
}

#[test]
fn checks_of_a_witness() {
    let closing = |closing, verifying| {
        let mut status = Status::default();
        report_closing(&mut status, op(1), txid(2), closing, verifying);
        status.failures
    };
    let misplaced = AnchorError::Lnpbp4InvalidProof(InvalidProof {
        protocol_id: contract_id(),
        expected: 3,
        actual: 2,
        width: 8,
    });
    assert_eq!(closing(Some(Ok(true)), Ok(true)), vec![]);
    assert_eq!(
        closing(Some(Ok(false)), Ok(true)),
        vec![Failure::SealInvalid(op(1), txid(2), SealError::CommitmentAbsent)]
    );
    assert_eq!(
        closing(Some(Ok(true)), Ok(false)),
        vec![Failure::AnchorInvalid(op(1), txid(2), AnchorError::CommitmentAbsent)]
    );
    assert_eq!(closing(None, Ok(true)), vec![Failure::MpcInvalid(op(1), txid(2))]);
    assert_eq!(
        closing(Some(Err(SealError::NoWitnessTxid)), Err(misplaced)),
        vec![
            Failure::SealInvalid(op(1), txid(2), SealError::NoWitnessTxid),
            Failure::AnchorInvalid(op(1), txid(2), misplaced),
        ]
    );
}

#[test]
fn assignments_by_number() {
    let genesis = Consignment::new(vec![], vec![]).genesis;
    let assigns = OpRef::Genesis(&genesis).assignments_by_type(STATE).unwrap();
    assert_eq!(assigns.revealed_seal_at(0), Ok(revealed(100).revealed));
    assert_eq!(assigns.revealed_seal_at(2), Ok(None));
    assert!(assigns.revealed_seal_at(3).is_err());
    assert!(assigns.has_confidential_seal(secret(102)));
    assert!(assigns.has_confidential_seal(secret(100)));
    assert!(!assigns.has_confidential_seal(secret(103)));
    assert!(OpRef::Genesis(&genesis).assignments_by_type(2).is_none());
    assert!(OpRef::Genesis(&genesis).has_valency(7));
    assert!(!OpRef::Genesis(&genesis).has_valency(8));
}

#[test]
fn resolver_errors_are_cloned() {
    let err = TxResolverError::Other(txid(1), "timeout".to_string());
    assert_eq!(err.clone(), err);
    assert_ne!(TxResolverError::Unknown(txid(1)), err);
}

/// Fails on every transaction, each time for another reason.
struct Offline {
    reason: RefCell<u32>,
}

impl ResolveTx for Offline {
    // Contracts alone speak of it.
    fn may_reply(&self, _: Txid, _: Result<Tx, TxResolverError>) -> bool {
        unreachable!()
    }

    fn resolve_tx(&self, id: Txid) -> Result<Tx, TxResolverError> {
        *self.reason.borrow_mut() += 1;
        Err(TxResolverError::Other(id, format!("reason {}", self.reason.borrow())))
    }
}

#[test]
fn reasons_of_the_resolver_do_not_matter() {
    let consignment = two_steps();
    let unknown = validate(&consignment, &Resolver::new(&[]));
    let offline = Offline { reason: RefCell::new(0) };
    assert_eq!(Validator::validate(&consignment, &offline), unknown);
    assert_eq!(Validator::validate(&consignment, &offline), unknown);
    assert_eq!(unknown.failures, vec![Failure::SealNoWitnessTx(txid(1))]);
    assert_eq!(unknown.unmined_terminals, vec![txid(2)]);
}

#[test]
fn every_end_excuses_one_question() {
    // Both transitions of the bundle are ends, and the resolver is asked for each.
    let first = spending(1, &[out(0, STATE, 0)], vec![concealed(110)]);
    let second = spending(2, &[out(0, STATE, 1)], vec![concealed(110)]);
    let consignment = Consignment::new(
        vec![anchored(3, vec![first, second])],
        vec![(bundle_id(3), secret(110))],
    );
    let status = validate(&consignment, &Resolver::new(&[]));
    assert_eq!(status.failures, vec![]);
    assert_eq!(status.unmined_terminals, vec![txid(3), txid(3)]);
    assert_eq!(status.unresolved_txids, vec![]);
}

#[test]
fn one_end_does_not_excuse_two_questions() {
    let mut consignment = two_steps();
    consignment.bundles[0].anchor = anchor_at(2, 0);
    let resolver = Resolver::new(&[]);
    let status = validate(&consignment, &resolver);
    assert_eq!(*resolver.asked.borrow(), vec![txid(2), txid(2)]);
    assert_eq!(status.failures, vec![Failure::SealNoWitnessTx(txid(2))]);
    assert_eq!(status.unmined_terminals, vec![txid(2)]);
    assert_eq!(status.unresolved_txids, vec![]);
}
