//! Contract operations and the history that a consignment holds.
use crate::ids::{BundleId, ContractId, OpId, SchemaId, SecretSeal};
use crate::index::OpIdSet;
use crate::schema::operations::{AssignmentType, ValencyType};
use crate::validation::status::{Report, Status};
use crate::validation::witness::{Anchor, Seal};
use vstd::prelude::*;

verus! {

/// Assignment of an operation: the operation, the type of the state and the number of the
/// assignment among those of the type.
#[derive(Clone, Copy, PartialEq, Eq, Hash, Debug)]
pub struct Opout {
    pub op: OpId,
    pub ty: AssignmentType,
    pub no: u16,
}

/// Seal that some state is assigned to.
#[derive(Clone, Copy, PartialEq, Eq, Hash, Debug)]
pub struct AssignedSeal {
    /// Concealed form of the seal.
    pub concealed: SecretSeal,
    /// The seal, unless it is known in its concealed form alone.
    pub revealed: Option<Seal>,
}

/// Assignments of one type of state.
#[derive(PartialEq, Eq, Debug)]
pub struct TypedAssigns {
    pub ty: AssignmentType,
    pub seals: Vec<AssignedSeal>,
}

/// There is no assignment with the number.
#[derive(Clone, Copy, PartialEq, Eq, Structural, Hash, Debug)]
pub struct UnknownDataError;

impl TypedAssigns {
    /// Seal of the assignment with a number, if it is revealed.
    pub open spec fn seal_at(self, no: u16) -> Result<Option<Seal>, UnknownDataError> {
        if no < self.seals@.len() {
            Ok(self.seals@[no as int].revealed)
        } else {
            Err(UnknownDataError)
        }
    }

    /// Seal of the assignment with a number, if it is revealed.
    pub fn revealed_seal_at(&self, no: u16) -> (seal: Result<Option<Seal>, UnknownDataError>)
        ensures
            seal == self.seal_at(no),
            seal is Ok <==> no < self.seals@.len(),
            seal matches Ok(revealed) ==> revealed == self.seals@[no as int].revealed,
    {
        if (no as usize) < self.seals.len() {
            Ok(self.seals[no as usize].revealed)
        } else {
            Err(UnknownDataError)
        }
    }

    /// Whether a seal is among those of the assignments, in its concealed form.
    pub open spec fn conceals(self, seal: SecretSeal) -> bool {
        exists|i: int| 0 <= i < self.seals@.len() && (#[trigger] self.seals@[i]).concealed == seal
    }

    /// Whether a seal is among those of the assignments, in its concealed form.
    pub fn has_confidential_seal(&self, seal: SecretSeal) -> (found: bool)
        ensures
            found == self.conceals(seal),
            found <==> exists|i: int|
                0 <= i < self.seals@.len() && (#[trigger] self.seals@[i]).concealed == seal,
    {
        let mut i: usize = 0;
        while i < self.seals.len()
            invariant
                i <= self.seals.len(),
                forall|j: int| 0 <= j < i ==> (#[trigger] self.seals@[j]).concealed != seal,
            decreases self.seals.len() - i,
        {
            if self.seals[i].concealed == seal {
                return true;
            }
            i = i + 1;
        }
        false
    }
}

/// Operation that starts a contract.
#[derive(PartialEq, Eq, Debug)]
pub struct Genesis {
    pub id: OpId,
    pub contract_id: ContractId,
    pub schema_id: SchemaId,
    pub assignments: Vec<TypedAssigns>,
    pub valencies: Vec<ValencyType>,
}

/// Input of a state transition.
#[derive(Clone, Copy, PartialEq, Eq, Hash, Debug)]
pub struct Input {
    /// Assignment that the transition spends.
    pub prev_out: Opout,
}

/// Operation that spends assigned state and assigns new one.
#[derive(PartialEq, Eq, Debug)]
pub struct Transition {
    pub id: OpId,
    pub inputs: Vec<Input>,
    pub assignments: Vec<TypedAssigns>,
    pub valencies: Vec<ValencyType>,
}

/// Valency that a state extension redeems, with the operation that has it.
#[derive(Clone, Copy, PartialEq, Eq, Hash, Debug)]
pub struct Redeemed {
    pub valency: ValencyType,
    pub prev_id: OpId,
}

/// Operation that adds to a contract by redeeming valencies.
#[derive(PartialEq, Eq, Debug)]
pub struct Extension {
    pub id: OpId,
    pub redeemed: Vec<Redeemed>,
    pub assignments: Vec<TypedAssigns>,
    pub valencies: Vec<ValencyType>,
}

impl Transition {
    /// Whether the transition assigns state to a seal with the given concealed form.
    pub open spec fn conceals(self, seal: SecretSeal) -> bool {
        exists|i: int|
            0 <= i < self.assignments@.len() && (#[trigger] self.assignments@[i]).conceals(seal)
    }

    /// Whether the transition assigns state to a seal with the given concealed form.
    pub fn has_confidential_seal(&self, seal: SecretSeal) -> (found: bool)
        ensures
            found == self.conceals(seal),
            found <==> exists|i: int, j: int|
                0 <= i < self.assignments@.len() && 0 <= j < self.assignments@[i].seals@.len() && (
                #[trigger] self.assignments@[i].seals@[j]).concealed == seal,
    {
        proof {
            conceals_iff(*self, seal);
        }
        let mut i: usize = 0;
        while i < self.assignments.len()
            invariant
                i <= self.assignments.len(),
                forall|j: int| 0 <= j < i ==> !(#[trigger] self.assignments@[j]).conceals(seal),
            decreases self.assignments.len() - i,
        {
            if self.assignments[i].has_confidential_seal(seal) {
                return true;
            }
            i = i + 1;
        }
        false
    }
}

/// An operation of any kind.
pub enum Operation {
    Genesis(Genesis),
    Transition(Transition),
    Extension(Extension),
}

impl Operation {
    /// Identifier of the operation.
    pub open spec fn id(self) -> OpId {
        match self {
            Operation::Genesis(genesis) => genesis.id,
            Operation::Transition(transition) => transition.id,
            Operation::Extension(extension) => extension.id,
        }
    }

    /// Assignments that the operation makes, by type of the state.
    pub open spec fn assignments(self) -> Seq<TypedAssigns> {
        match self {
            Operation::Genesis(genesis) => genesis.assignments@,
            Operation::Transition(transition) => transition.assignments@,
            Operation::Extension(extension) => extension.assignments@,
        }
    }

    /// Valencies that the operation has.
    pub open spec fn valencies(self) -> Seq<ValencyType> {
        match self {
            Operation::Genesis(genesis) => genesis.valencies@,
            Operation::Transition(transition) => transition.valencies@,
            Operation::Extension(extension) => extension.valencies@,
        }
    }

    /// Assignments of a type.
    pub open spec fn assigns(self, ty: AssignmentType) -> Option<TypedAssigns> {
        find_assigns(self.assignments(), ty, 0)
    }
}

/// First assignments of a type at or behind an index.
pub open spec fn find_assigns(
    assignments: Seq<TypedAssigns>,
    ty: AssignmentType,
    from: int,
) -> Option<TypedAssigns>
    decreases assignments.len() - from,
{
    if from < 0 || from >= assignments.len() {
        None
    } else if assignments[from].ty == ty {
        Some(assignments[from])
    } else {
        find_assigns(assignments, ty, from + 1)
    }
}

/// Reference to an operation of any kind.
#[derive(Clone, Copy)]
pub enum OpRef<'op> {
    Genesis(&'op Genesis),
    Transition(&'op Transition),
    Extension(&'op Extension),
}

impl<'op> View for OpRef<'op> {
    type V = Operation;

    open spec fn view(&self) -> Operation {
        match self {
            OpRef::Genesis(genesis) => Operation::Genesis(**genesis),
            OpRef::Transition(transition) => Operation::Transition(**transition),
            OpRef::Extension(extension) => Operation::Extension(**extension),
        }
    }
}

impl<'op> OpRef<'op> {
    /// Identifier of the operation.
    pub fn id(&self) -> (id: OpId)
        ensures
            id == self@.id(),
    {
        match self {
            OpRef::Genesis(genesis) => genesis.id,
            OpRef::Transition(transition) => transition.id,
            OpRef::Extension(extension) => extension.id,
        }
    }

    fn assignments(&self) -> (assignments: &'op Vec<TypedAssigns>)
        ensures
            assignments@ == self@.assignments(),
    {
        match self {
            OpRef::Genesis(genesis) => &genesis.assignments,
            OpRef::Transition(transition) => &transition.assignments,
            OpRef::Extension(extension) => &extension.assignments,
        }
    }

    /// Assignments of a type.
    pub fn assignments_by_type(&self, ty: AssignmentType) -> (assigns: Option<&'op TypedAssigns>)
        ensures
            match assigns {
                Some(assigns) => self@.assigns(ty) == Some(*assigns),
                None => self@.assigns(ty) is None,
            },
            assigns is None <==> forall|i: int|
                0 <= i < self@.assignments().len() ==> (#[trigger] self@.assignments()[i]).ty != ty,
            assigns matches Some(assigns) ==> assigns.ty == ty && self@.assignments().contains(
                *assigns,
            ),
    {
        proof {
            assigns_first(self@, ty);
        }
        let assignments = self.assignments();
        let mut i: usize = 0;
        while i < assignments.len()
            invariant
                i <= assignments.len(),
                assignments@ == self@.assignments(),
                self@.assigns(ty) == find_assigns(assignments@, ty, i as int),
            decreases assignments.len() - i,
        {
            if assignments[i].ty == ty {
                return Some(&assignments[i]);
            }
            i = i + 1;
        }
        None
    }

    /// Whether the operation has a valency.
    pub fn has_valency(&self, valency: ValencyType) -> (found: bool)
        ensures
            found == self@.valencies().contains(valency),
    {
        let valencies = match self {
            OpRef::Genesis(genesis) => &genesis.valencies,
            OpRef::Transition(transition) => &transition.valencies,
            OpRef::Extension(extension) => &extension.valencies,
        };
        let mut i: usize = 0;
        while i < valencies.len()
            invariant
                i <= valencies.len(),
                valencies@ == self@.valencies(),
                forall|j: int| 0 <= j < i ==> valencies@[j] != valency,
            decreases valencies.len() - i,
        {
            if valencies[i] == valency {
                return true;
            }
            i = i + 1;
        }
        false
    }
}

/// State transitions that are committed to together, as far as they are known.
#[derive(PartialEq, Eq, Debug)]
pub struct TransitionBundle {
    pub bundle_id: BundleId,
    /// The transitions, where they are revealed.
    pub items: Vec<Option<Transition>>,
    /// Whether the bundle is consistent in itself.
    pub consistent: bool,
}

impl TransitionBundle {
    /// Whether a transition is among the revealed ones.
    pub open spec fn reveals(self, id: OpId) -> bool {
        exists|i: int|
            0 <= i < self.items@.len() && (#[trigger] self.items@[i] matches Some(transition)
                && transition.id == id)
    }
}

/// Bundle of transitions with the anchor that commits to it.
pub struct AnchoredBundle {
    pub anchor: Anchor,
    pub bundle: TransitionBundle,
}

/// What a consignment holds.
pub struct History {
    /// Identifier of the schema that came with the consignment.
    pub schema_id: SchemaId,
    /// What the check of that schema reports.
    pub schema_report: Report,
    /// What the check of an operation against that schema reports.
    pub op_report: spec_fn(Operation) -> Report,
    /// Operation that starts the contract.
    pub genesis: Genesis,
    /// Bundles of transitions with their anchors.
    pub bundles: Seq<AnchoredBundle>,
    /// Ends of the history: bundles, each with the concealed seal that state is given out to.
    pub terminals: Seq<(BundleId, SecretSeal)>,
    /// Known transitions of bundles.
    pub bundled: Map<BundleId, Seq<Transition>>,
    /// Known operations.
    pub operations: Map<OpId, Operation>,
    /// Identifiers of all operations.
    pub op_ids: Seq<OpId>,
}

/// A transition assigns state to a seal just where, among its assignments of any type, there is one
/// to the seal.
pub proof fn conceals_iff(transition: Transition, seal: SecretSeal)
    ensures
        transition.conceals(seal) <==> exists|i: int, j: int|
            0 <= i < transition.assignments@.len() && 0 <= j
                < transition.assignments@[i].seals@.len() && (
            #[trigger] transition.assignments@[i].seals@[j]).concealed == seal,
{
    let assignments = transition.assignments@;
    if transition.conceals(seal) {
        let i = choose|i: int|
            0 <= i < assignments.len() && (#[trigger] assignments[i]).conceals(seal);
        let j = choose|j: int|
            0 <= j < assignments[i].seals@.len() && (
            #[trigger] assignments[i].seals@[j]).concealed == seal;
        assert(assignments[i].seals@[j].concealed == seal);
    }
    if exists|i: int, j: int|
        0 <= i < assignments.len() && 0 <= j < assignments[i].seals@.len() && (
        #[trigger] assignments[i].seals@[j]).concealed == seal {
        let (i, j) = choose|i: int, j: int|
            0 <= i < assignments.len() && 0 <= j < assignments[i].seals@.len() && (
            #[trigger] assignments[i].seals@[j]).concealed == seal;
        assert(assignments[i].conceals(seal));
    }
}

/// An assignment has a seal to tell of just where its number is below the number of assignments,
/// and the seal is the one that stands at that number.
pub proof fn seal_at_iff(assigns: TypedAssigns, no: u16)
    ensures
        assigns.seal_at(no) is Ok <==> no < assigns.seals@.len(),
        no < assigns.seals@.len() ==> assigns.seal_at(no) == Ok::<Option<Seal>, UnknownDataError>(
            assigns.seals@[no as int].revealed,
        ),
{
}

proof fn find_assigns_first(assignments: Seq<TypedAssigns>, ty: AssignmentType, from: int)
    requires
        0 <= from,
    ensures
        find_assigns(assignments, ty, from) is None <==> forall|i: int|
            from <= i < assignments.len() ==> (#[trigger] assignments[i]).ty != ty,
        find_assigns(assignments, ty, from) matches Some(found) ==> exists|i: int|
            {
                &&& from <= i < assignments.len()
                &&& #[trigger] assignments[i] == found
                &&& found.ty == ty
                &&& forall|j: int| from <= j < i ==> (#[trigger] assignments[j]).ty != ty
            },
    decreases assignments.len() - from,
{
    if from < assignments.len() {
        find_assigns_first(assignments, ty, from + 1);
        if assignments[from].ty == ty {
            assert(assignments[from] == find_assigns(assignments, ty, from)->Some_0);
        } else if find_assigns(assignments, ty, from + 1) is Some {
            let found = find_assigns(assignments, ty, from + 1)->Some_0;
            let i = choose|i: int|
                {
                    &&& from + 1 <= i < assignments.len()
                    &&& #[trigger] assignments[i] == found
                    &&& found.ty == ty
                    &&& forall|j: int| from + 1 <= j < i ==> (#[trigger] assignments[j]).ty != ty
                };
            assert(assignments[i] == found);
        }
    }
}

/// An operation has assignments of a type just where one of its entries, whichever, is of the
/// type, and the first such entry is taken.
pub proof fn assigns_first(operation: Operation, ty: AssignmentType)
    ensures
        operation.assigns(ty) is None <==> forall|i: int|
            0 <= i < operation.assignments().len() ==> (#[trigger] operation.assignments()[i]).ty
                != ty,
        operation.assigns(ty) matches Some(found) ==> found.ty == ty
            && operation.assignments().contains(found) && exists|i: int|
            {
                &&& 0 <= i < operation.assignments().len()
                &&& #[trigger] operation.assignments()[i] == found
                &&& forall|j: int|
                    0 <= j < i ==> (#[trigger] operation.assignments()[j]).ty != ty
            },
{
    find_assigns_first(operation.assignments(), ty, 0);
}

/// The identifier, the assignments and the valencies of an operation are those of what it is,
/// whatever its kind.
pub proof fn operation_parts(genesis: Genesis, transition: Transition, extension: Extension)
    ensures
        Operation::Genesis(genesis).id() == genesis.id,
        Operation::Transition(transition).id() == transition.id,
        Operation::Extension(extension).id() == extension.id,
        Operation::Genesis(genesis).assignments() == genesis.assignments@,
        Operation::Transition(transition).assignments() == transition.assignments@,
        Operation::Extension(extension).assignments() == extension.assignments@,
        Operation::Genesis(genesis).valencies() == genesis.valencies@,
        Operation::Transition(transition).valencies() == transition.valencies@,
        Operation::Extension(extension).valencies() == extension.valencies@,
        OpRef::Genesis(&genesis)@ == Operation::Genesis(genesis),
        OpRef::Transition(&transition)@ == Operation::Transition(transition),
        OpRef::Extension(&extension)@ == Operation::Extension(extension),
{
}

/// A bundle reveals a transition just where one of its items, whichever, is revealed and is the
/// transition.
pub proof fn reveals_iff(bundle: TransitionBundle, id: OpId)
    ensures
        bundle.reveals(id) <==> exists|i: int|
            0 <= i < bundle.items@.len() && #[trigger] bundle.items@[i] is Some
                && bundle.items@[i]->Some_0.id == id,
{
    if exists|i: int|
        0 <= i < bundle.items@.len() && #[trigger] bundle.items@[i] is Some
            && bundle.items@[i]->Some_0.id == id {
        let i = choose|i: int|
            0 <= i < bundle.items@.len() && #[trigger] bundle.items@[i] is Some
                && bundle.items@[i]->Some_0.id == id;
        assert(bundle.items@[i] matches Some(transition) && transition.id == id);
    }
}

/// An operation is outside a set just where it is not in it.
pub proof fn outside_iff(ids: Set<OpId>, id: OpId)
    ensures
        outside(ids)(id) <==> !ids.contains(id),
{
}

/// Holds of every operation but those in a set.
pub open spec fn outside(ids: Set<OpId>) -> spec_fn(OpId) -> bool {
    |id: OpId| !ids.contains(id)
}

/// Access to a consignment.
pub trait ConsignmentApi {
    /// What the consignment holds.
    spec fn history(&self) -> History;

    /// Identifier of the schema that came with the consignment.
    fn schema_id(&self) -> (schema_id: SchemaId)
        ensures
            schema_id == self.history().schema_id,
    ;

    /// Checks the schema.
    fn verify_schema(&self) -> (status: Status)
        ensures
            status@ == self.history().schema_report,
    ;

    /// Checks an operation against the schema.
    fn validate_operation(&self, operation: OpRef<'_>) -> (status: Status)
        ensures
            status@ == (self.history().op_report)(operation@),
    ;

    /// Operation that starts the contract.
    fn genesis(&self) -> (genesis: &Genesis)
        ensures
            *genesis == self.history().genesis,
    ;

    /// Bundles of transitions with their anchors.
    fn anchored_bundles(&self) -> (bundles: &Vec<AnchoredBundle>)
        ensures
            bundles@ == self.history().bundles,
    ;

    /// Ends of the history.
    fn terminals(&self) -> (terminals: &Vec<(BundleId, SecretSeal)>)
        ensures
            terminals@ == self.history().terminals,
    ;

    /// Known transitions of a bundle.
    fn known_transitions_by_bundle_id(&self, bundle_id: BundleId) -> (transitions: Option<
        Vec<&Transition>,
    >)
        ensures
            match transitions {
                Some(transitions) => {
                    &&& self.history().bundled.contains_key(bundle_id)
                    &&& transitions@.len() == self.history().bundled[bundle_id].len()
                    &&& forall|i: int|
                        0 <= i < transitions@.len() ==> *(#[trigger] transitions@[i])
                            == self.history().bundled[bundle_id][i]
                },
                None => !self.history().bundled.contains_key(bundle_id),
            },
    ;

    /// Known operation with an identifier.
    fn operation(&self, opid: OpId) -> (operation: Option<OpRef<'_>>)
        ensures
            match operation {
                Some(operation) => self.history().operations.contains_key(opid)
                    && self.history().operations[opid] == operation@,
                None => !self.history().operations.contains_key(opid),
            },
    ;

    /// Identifiers of all operations but those in a set.
    fn op_ids_except(&self, known: &OpIdSet) -> (op_ids: Vec<OpId>)
        requires
            known.well_formed(),
        ensures
            op_ids@ == self.history().op_ids.filter(outside(known@.dom())),
    ;
}

} // verus!
