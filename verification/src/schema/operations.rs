//! Operation types and the schemata of operations.
use crate::schema::collections::{OccurrenceMap, Occurrences, ValencySet};
use strict_types::SemId;
use vstd::prelude::*;

verus! {

/// Type of a global state.
pub type GlobalStateType = u16;

/// Type of an owned state assignment.
pub type AssignmentType = u16;

/// Type of a valency.
pub type ValencyType = u16;

/// Type of a state transition.
pub type TransitionType = u16;

/// Type of a state extension.
pub type ExtensionType = u16;

/// Global states which an operation may define.
pub type GlobalSchema = OccurrenceMap;

/// Valencies which an operation may define or redeem.
pub type ValencySchema = ValencySet;

/// Owned states which an operation may spend.
pub type InputsSchema = OccurrenceMap;

/// Owned states which an operation may assign.
pub type AssignmentsSchema = OccurrenceMap;

/// Identifier of a type in the semantic type system.
#[verifier::external_type_specification]
#[verifier::external_body]
pub struct ExSemId(SemId);

/// Decimal digit.
pub open spec fn digit(d: nat) -> Seq<char>
    recommends
        d < 10,
{
    if d == 0 {
        "0"@
    } else if d == 1 {
        "1"@
    } else if d == 2 {
        "2"@
    } else if d == 3 {
        "3"@
    } else if d == 4 {
        "4"@
    } else if d == 5 {
        "5"@
    } else if d == 6 {
        "6"@
    } else if d == 7 {
        "7"@
    } else if d == 8 {
        "8"@
    } else {
        "9"@
    }
}

/// Decimal digits of a number.
pub open spec fn decimal(n: nat) -> Seq<char>
    decreases n,
{
    if n < 10 {
        digit(n)
    } else {
        decimal(n / 10) + digit(n % 10)
    }
}

/// Number that decimal digits make, the highest digit first.
pub open spec fn reading(text: Seq<char>) -> int
    decreases text.len(),
{
    if text.len() == 0 {
        0
    } else {
        10 * reading(text.drop_last()) + (text.last() as int - '0' as int)
    }
}

proof fn digit_reads(d: nat)
    requires
        d < 10,
    ensures
        digit(d).len() == 1,
        digit(d)[0] as int == '0' as int + d,
{
    reveal_strlit("0");
    reveal_strlit("1");
    reveal_strlit("2");
    reveal_strlit("3");
    reveal_strlit("4");
    reveal_strlit("5");
    reveal_strlit("6");
    reveal_strlit("7");
    reveal_strlit("8");
    reveal_strlit("9");
}

/// The decimal digits of a number are digits, are read back as the number, and do not start with a
/// zero but for the number zero, of which there is one digit.
pub proof fn decimal_reads_back(n: nat)
    ensures
        reading(decimal(n)) == n,
        decimal(n).len() > 0,
        forall|i: int| 0 <= i < decimal(n).len() ==> '0' <= #[trigger] decimal(n)[i] <= '9',
        n > 0 ==> decimal(n)[0] != '0',
        n < 10 ==> decimal(n).len() == 1,
    decreases n,
{
    if n < 10 {
        digit_reads(n);
        assert(decimal(n).drop_last() =~= Seq::empty());
        assert(reading(decimal(n).drop_last()) == 0);
    } else {
        decimal_reads_back(n / 10);
        digit_reads(n % 10);
        assert(decimal(n).drop_last() =~= decimal(n / 10));
        assert(decimal(n)[0] == decimal(n / 10)[0]);
    }
}

fn append_digit(text: &mut String, d: u16)
    requires
        d < 10,
    ensures
        final(text)@ == old(text)@ + digit(d as nat),
{
    let digit = match d {
        0 => "0",
        1 => "1",
        2 => "2",
        3 => "3",
        4 => "4",
        5 => "5",
        6 => "6",
        7 => "7",
        8 => "8",
        _ => "9",
    };
    text.append(digit);
}

fn append_decimal(text: &mut String, n: u16)
    ensures
        final(text)@ == old(text)@ + decimal(n as nat),
    decreases n,
{
    if n >= 10 {
        append_decimal(text, n / 10);
    }
    append_digit(text, n % 10);
    assert(text@ =~= old(text)@ + decimal(n as nat));
}

/// Kind of an operation: genesis, state extension or state transition.
#[derive(Clone, Copy, PartialEq, Eq, Structural, PartialOrd, Ord, Hash, Debug)]
pub enum OpType {
    /// Single operation per contract, which defines the contract and commits to a specific
    /// schema and underlying chain hash.
    Genesis,
    /// Decentralized and unowned contract extension, which commits either to a genesis or to
    /// some state transition by way of their valencies.
    StateExtension,
    /// Owned change to the state data, which commits to (potentially multiple) ancestors by
    /// spending the transaction outputs that they assigned some state to.
    StateTransition,
}

impl OpType {
    /// Name of the kind.
    pub open spec fn spec_name(self) -> Seq<char> {
        match self {
            OpType::Genesis => "genesis"@,
            OpType::StateExtension => "extension"@,
            OpType::StateTransition => "transition"@,
        }
    }

    /// Name of the kind.
    pub fn name(self) -> (name: String)
        ensures
            name@ == self.spec_name(),
    {
        let name = match self {
            OpType::Genesis => "genesis",
            OpType::StateExtension => "extension",
            OpType::StateTransition => "transition",
        };
        name.to_owned()
    }

    /// Number of the kind in serialized form.
    pub open spec fn spec_code(self) -> u8 {
        match self {
            OpType::Genesis => 0,
            OpType::StateExtension => 1,
            OpType::StateTransition => 2,
        }
    }

    /// Number of the kind in serialized form.
    pub fn code(self) -> (code: u8)
        ensures
            code == self.spec_code(),
    {
        match self {
            OpType::Genesis => 0,
            OpType::StateExtension => 1,
            OpType::StateTransition => 2,
        }
    }
}

/// Kind of an operation together with its transition or extension type.
#[derive(Clone, Copy, PartialEq, Eq, Structural, PartialOrd, Ord, Hash, Debug)]
pub enum OpFullType {
    /// Genesis (no subtypes).
    Genesis,
    /// State transition, subtyped by transition type.
    StateTransition(TransitionType),
    /// State extension, subtyped by extension type.
    StateExtension(ExtensionType),
}

impl OpFullType {
    /// Transition or extension type; zero for a genesis.
    pub open spec fn spec_subtype(self) -> u16 {
        match self {
            OpFullType::Genesis => 0,
            OpFullType::StateTransition(ty) => ty,
            OpFullType::StateExtension(ty) => ty,
        }
    }

    /// Transition or extension type; zero for a genesis.
    pub fn subtype(self) -> (ty: u16)
        ensures
            ty == self.spec_subtype(),
    {
        match self {
            OpFullType::Genesis => 0,
            OpFullType::StateTransition(ty) => ty,
            OpFullType::StateExtension(ty) => ty,
        }
    }

    /// Whether the operation is a state transition.
    pub fn is_transition(self) -> (is: bool)
        ensures
            is == (self is StateTransition),
    {
        matches!(self, Self::StateTransition(_))
    }

    /// Whether the operation is a state extension.
    pub fn is_extension(self) -> (is: bool)
        ensures
            is == (self is StateExtension),
    {
        matches!(self, Self::StateExtension(_))
    }

    /// Name of the kind, with the subtype where there is one.
    pub open spec fn spec_name(self) -> Seq<char> {
        match self {
            OpFullType::Genesis => "genesis"@,
            OpFullType::StateTransition(ty) => "state transition #"@ + decimal(ty as nat),
            OpFullType::StateExtension(ty) => "state extension #"@ + decimal(ty as nat),
        }
    }

    /// Name of the kind, with the subtype where there is one.
    pub fn name(self) -> (name: String)
        ensures
            name@ == self.spec_name(),
    {
        match self {
            OpFullType::Genesis => "genesis".to_owned(),
            OpFullType::StateTransition(ty) => {
                let mut name = "state transition #".to_owned();
                append_decimal(&mut name, ty);
                name
            },
            OpFullType::StateExtension(ty) => {
                let mut name = "state extension #".to_owned();
                append_decimal(&mut name, ty);
                name
            },
        }
    }
}

/// Common access to the schemata of all operation types.
pub trait OpSchema {
    spec fn spec_op_type(&self) -> OpType;

    spec fn spec_metadata(&self) -> SemId;

    spec fn spec_globals(&self) -> GlobalSchema;

    spec fn spec_inputs(&self) -> Option<InputsSchema>;

    spec fn spec_redeems(&self) -> Option<ValencySchema>;

    spec fn spec_assignments(&self) -> AssignmentsSchema;

    spec fn spec_valencies(&self) -> ValencySchema;

    /// Kind of the operation.
    fn op_type(&self) -> (op_type: OpType)
        ensures
            op_type == self.spec_op_type(),
    ;

    /// Type of the metadata.
    fn metadata(&self) -> (metadata: SemId)
        ensures
            metadata == self.spec_metadata(),
    ;

    /// Global states which the operation may define.
    fn globals(&self) -> (globals: &GlobalSchema)
        ensures
            *globals == self.spec_globals(),
    ;

    /// Owned states which the operation may spend, if it is of a kind that spends any.
    fn inputs(&self) -> (inputs: Option<&InputsSchema>)
        ensures
            match inputs {
                Some(inputs) => self.spec_inputs() == Some(*inputs),
                None => self.spec_inputs() is None,
            },
    ;

    /// Valencies which the operation may redeem, if it is of a kind that redeems any.
    fn redeems(&self) -> (redeems: Option<&ValencySchema>)
        ensures
            match redeems {
                Some(redeems) => self.spec_redeems() == Some(*redeems),
                None => self.spec_redeems() is None,
            },
    ;

    /// Owned states which the operation may assign.
    fn assignments(&self) -> (assignments: &AssignmentsSchema)
        ensures
            *assignments == self.spec_assignments(),
    ;

    /// Valencies which the operation may define.
    fn valencies(&self) -> (valencies: &ValencySchema)
        ensures
            *valencies == self.spec_valencies(),
    ;
}

/// `SemId::default` of `strict_types`: the identifier of the unit type, of which nothing else
/// is said.
#[verifier::external_body]
fn unit_type() -> (id: SemId) {
    SemId::default()
}

/// Schema of a genesis.
#[derive(PartialEq, Eq, Debug)]
pub struct GenesisSchema {
    pub metadata: SemId,
    pub globals: GlobalSchema,
    pub assignments: AssignmentsSchema,
    pub valencies: ValencySchema,
}

/// Schema of a state extension.
#[derive(PartialEq, Eq, Debug)]
pub struct ExtensionSchema {
    pub metadata: SemId,
    pub globals: GlobalSchema,
    pub redeems: ValencySchema,
    pub assignments: AssignmentsSchema,
    pub valencies: ValencySchema,
}

/// Schema of a state transition.
#[derive(PartialEq, Eq, Debug)]
pub struct TransitionSchema {
    pub metadata: SemId,
    pub globals: GlobalSchema,
    pub inputs: InputsSchema,
    pub assignments: AssignmentsSchema,
    pub valencies: ValencySchema,
}

impl Clone for GenesisSchema {
    fn clone(&self) -> (schema: GenesisSchema)
        ensures
            schema.metadata == self.metadata,
            schema.globals@ == self.globals@,
            schema.assignments@ == self.assignments@,
            schema.valencies@ == self.valencies@,
    {
        GenesisSchema {
            metadata: self.metadata,
            globals: self.globals.clone(),
            assignments: self.assignments.clone(),
            valencies: self.valencies.clone(),
        }
    }
}

impl Clone for ExtensionSchema {
    fn clone(&self) -> (schema: ExtensionSchema)
        ensures
            schema.metadata == self.metadata,
            schema.globals@ == self.globals@,
            schema.redeems@ == self.redeems@,
            schema.assignments@ == self.assignments@,
            schema.valencies@ == self.valencies@,
    {
        ExtensionSchema {
            metadata: self.metadata,
            globals: self.globals.clone(),
            redeems: self.redeems.clone(),
            assignments: self.assignments.clone(),
            valencies: self.valencies.clone(),
        }
    }
}

impl Clone for TransitionSchema {
    fn clone(&self) -> (schema: TransitionSchema)
        ensures
            schema.metadata == self.metadata,
            schema.globals@ == self.globals@,
            schema.inputs@ == self.inputs@,
            schema.assignments@ == self.assignments@,
            schema.valencies@ == self.valencies@,
    {
        TransitionSchema {
            metadata: self.metadata,
            globals: self.globals.clone(),
            inputs: self.inputs.clone(),
            assignments: self.assignments.clone(),
            valencies: self.valencies.clone(),
        }
    }
}

impl Default for GenesisSchema {
    /// Schema that allows for no state and no valency.
    fn default() -> (schema: GenesisSchema)
        ensures
            schema.globals@ == Map::<u16, Occurrences>::empty(),
            schema.assignments@ == Map::<u16, Occurrences>::empty(),
            schema.valencies@ == Set::<u16>::empty(),
    {
        GenesisSchema {
            metadata: unit_type(),
            globals: GlobalSchema::default(),
            assignments: AssignmentsSchema::default(),
            valencies: ValencySchema::default(),
        }
    }
}

impl Default for ExtensionSchema {
    /// Schema that allows for no state and no valency.
    fn default() -> (schema: ExtensionSchema)
        ensures
            schema.globals@ == Map::<u16, Occurrences>::empty(),
            schema.redeems@ == Set::<u16>::empty(),
            schema.assignments@ == Map::<u16, Occurrences>::empty(),
            schema.valencies@ == Set::<u16>::empty(),
    {
        ExtensionSchema {
            metadata: unit_type(),
            globals: GlobalSchema::default(),
            redeems: ValencySchema::default(),
            assignments: AssignmentsSchema::default(),
            valencies: ValencySchema::default(),
        }
    }
}

impl Default for TransitionSchema {
    /// Schema that allows for no state and no valency.
    fn default() -> (schema: TransitionSchema)
        ensures
            schema.globals@ == Map::<u16, Occurrences>::empty(),
            schema.inputs@ == Map::<u16, Occurrences>::empty(),
            schema.assignments@ == Map::<u16, Occurrences>::empty(),
            schema.valencies@ == Set::<u16>::empty(),
    {
        TransitionSchema {
            metadata: unit_type(),
            globals: GlobalSchema::default(),
            inputs: InputsSchema::default(),
            assignments: AssignmentsSchema::default(),
            valencies: ValencySchema::default(),
        }
    }
}

impl OpSchema for GenesisSchema {
    open spec fn spec_op_type(&self) -> OpType {
        OpType::Genesis
    }

    open spec fn spec_metadata(&self) -> SemId {
        self.metadata
    }

    open spec fn spec_globals(&self) -> GlobalSchema {
        self.globals
    }

    open spec fn spec_inputs(&self) -> Option<InputsSchema> {
        None
    }

    open spec fn spec_redeems(&self) -> Option<ValencySchema> {
        None
    }

    open spec fn spec_assignments(&self) -> AssignmentsSchema {
        self.assignments
    }

    open spec fn spec_valencies(&self) -> ValencySchema {
        self.valencies
    }

    fn op_type(&self) -> (op_type: OpType) {
        OpType::Genesis
    }

    fn metadata(&self) -> (metadata: SemId) {
        self.metadata
    }

    fn globals(&self) -> (globals: &GlobalSchema) {
        &self.globals
    }

    fn inputs(&self) -> (inputs: Option<&InputsSchema>) {
        None
    }

    fn redeems(&self) -> (redeems: Option<&ValencySchema>) {
        None
    }

    fn assignments(&self) -> (assignments: &AssignmentsSchema) {
        &self.assignments
    }

    fn valencies(&self) -> (valencies: &ValencySchema) {
        &self.valencies
    }
}

impl OpSchema for ExtensionSchema {
    open spec fn spec_op_type(&self) -> OpType {
        OpType::StateExtension
    }

    open spec fn spec_metadata(&self) -> SemId {
        self.metadata
    }

    open spec fn spec_globals(&self) -> GlobalSchema {
        self.globals
    }

    open spec fn spec_inputs(&self) -> Option<InputsSchema> {
        None
    }

    open spec fn spec_redeems(&self) -> Option<ValencySchema> {
        Some(self.redeems)
    }

    open spec fn spec_assignments(&self) -> AssignmentsSchema {
        self.assignments
    }

    open spec fn spec_valencies(&self) -> ValencySchema {
        self.valencies
    }

    fn op_type(&self) -> (op_type: OpType) {
        OpType::StateExtension
    }

    fn metadata(&self) -> (metadata: SemId) {
        self.metadata
    }

    fn globals(&self) -> (globals: &GlobalSchema) {
        &self.globals
    }

    fn inputs(&self) -> (inputs: Option<&InputsSchema>) {
        None
    }

    fn redeems(&self) -> (redeems: Option<&ValencySchema>) {
        Some(&self.redeems)
    }

    fn assignments(&self) -> (assignments: &AssignmentsSchema) {
        &self.assignments
    }

    fn valencies(&self) -> (valencies: &ValencySchema) {
        &self.valencies
    }
}

impl OpSchema for TransitionSchema {
    open spec fn spec_op_type(&self) -> OpType {
        OpType::StateTransition
    }

    open spec fn spec_metadata(&self) -> SemId {
        self.metadata
    }

    open spec fn spec_globals(&self) -> GlobalSchema {
        self.globals
    }

    open spec fn spec_inputs(&self) -> Option<InputsSchema> {
        Some(self.inputs)
    }

    open spec fn spec_redeems(&self) -> Option<ValencySchema> {
        None
    }

    open spec fn spec_assignments(&self) -> AssignmentsSchema {
        self.assignments
    }

    open spec fn spec_valencies(&self) -> ValencySchema {
        self.valencies
    }

    fn op_type(&self) -> (op_type: OpType) {
        OpType::StateTransition
    }

    fn metadata(&self) -> (metadata: SemId) {
        self.metadata
    }

    fn globals(&self) -> (globals: &GlobalSchema) {
        &self.globals
    }

    fn inputs(&self) -> (inputs: Option<&InputsSchema>) {
        Some(&self.inputs)
    }

    fn redeems(&self) -> (redeems: Option<&ValencySchema>) {
        None
    }

    fn assignments(&self) -> (assignments: &AssignmentsSchema) {
        &self.assignments
    }

    fn valencies(&self) -> (valencies: &ValencySchema) {
        &self.valencies
    }
}

/// Transitions alone spend owned states, and extensions alone redeem valencies.
pub proof fn spending_and_redeeming(
    genesis: GenesisSchema,
    extension: ExtensionSchema,
    transition: TransitionSchema,
)
    ensures
        genesis.spec_inputs() is None && genesis.spec_redeems() is None,
        extension.spec_inputs() is None && extension.spec_redeems() is Some,
        transition.spec_inputs() is Some && transition.spec_redeems() is None,
{
}

/// The kinds of operations are told apart by their numbers in serialized form.
pub proof fn codes_distinct(kind: OpType, other: OpType)
    ensures
        kind.spec_code() == other.spec_code() <==> kind == other,
{
}

/// A schema of any kind is of the kind that it is for, and gives out each of its parts as it holds
/// them: metadata, global states, assignments and valencies, and what it may spend or redeem.
pub proof fn schema_parts(
    genesis: GenesisSchema,
    extension: ExtensionSchema,
    transition: TransitionSchema,
)
    ensures
        genesis.spec_op_type() == OpType::Genesis,
        genesis.spec_metadata() == genesis.metadata,
        genesis.spec_globals() == genesis.globals,
        genesis.spec_assignments() == genesis.assignments,
        genesis.spec_valencies() == genesis.valencies,
        extension.spec_op_type() == OpType::StateExtension,
        extension.spec_metadata() == extension.metadata,
        extension.spec_globals() == extension.globals,
        extension.spec_redeems() == Some(extension.redeems),
        extension.spec_assignments() == extension.assignments,
        extension.spec_valencies() == extension.valencies,
        transition.spec_op_type() == OpType::StateTransition,
        transition.spec_metadata() == transition.metadata,
        transition.spec_globals() == transition.globals,
        transition.spec_inputs() == Some(transition.inputs),
        transition.spec_assignments() == transition.assignments,
        transition.spec_valencies() == transition.valencies,
{
}

/// A full type is named by its kind and the decimal digits of its subtype, and gives its subtype
/// out as it is.
pub proof fn full_type_parts(ty: u16)
    ensures
        OpFullType::Genesis.spec_name() == "genesis"@,
        OpFullType::StateTransition(ty).spec_name() == "state transition #"@ + decimal(ty as nat),
        OpFullType::StateExtension(ty).spec_name() == "state extension #"@ + decimal(ty as nat),
        OpFullType::Genesis.spec_subtype() == 0,
        OpFullType::StateTransition(ty).spec_subtype() == ty,
        OpFullType::StateExtension(ty).spec_subtype() == ty,
{
}

/// The kinds of operations are named and numbered in order: genesis, extension, transition.
pub proof fn kinds_numbered()
    ensures
        OpType::Genesis.spec_name() == "genesis"@,
        OpType::StateExtension.spec_name() == "extension"@,
        OpType::StateTransition.spec_name() == "transition"@,
        OpType::Genesis.spec_code() == 0,
        OpType::StateExtension.spec_code() == 1,
        OpType::StateTransition.spec_code() == 2,
{
}

/// The names of two transition types, or of two extension types, are the same just where the
/// subtypes are.
pub proof fn names_distinct(ty: u16, other: u16)
    ensures
        OpFullType::StateTransition(ty).spec_name() == OpFullType::StateTransition(
            other,
        ).spec_name() <==> ty == other,
        OpFullType::StateExtension(ty).spec_name() == OpFullType::StateExtension(other).spec_name()
            <==> ty == other,
{
    decimal_reads_back(ty as nat);
    decimal_reads_back(other as nat);
    let a = "state transition #"@;
    let b = "state extension #"@;
    let digits = decimal(ty as nat);
    let others = decimal(other as nat);
    if a + digits == a + others {
        assert((a + digits).skip(a.len() as int) =~= digits);
        assert((a + others).skip(a.len() as int) =~= others);
    }
    if b + digits == b + others {
        assert((b + digits).skip(b.len() as int) =~= digits);
        assert((b + others).skip(b.len() as int) =~= others);
    }
}

} // verus!
