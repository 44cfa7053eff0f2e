//! The report that validation makes.
use crate::contract::Opout;
use crate::ids::{BundleId, OpId, SchemaId, SecretSeal, Txid};
use crate::schema::operations::{AssignmentType, ValencyType};
use crate::validation::witness::{AnchorError, SealError};
use vstd::prelude::*;

verus! {

/// What makes a consignment invalid.
#[derive(Clone, Copy, PartialEq, Eq, Hash, Debug)]
pub enum Failure {
    /// A rule of the schema is broken. The number is that of the rule; there is no subject
    /// where the schema itself breaks the rule.
    Schema { subject: Option<OpId>, rule: u32 },
    /// The schema is not that of the contract genesis.
    SchemaMismatch { expected: SchemaId, actual: SchemaId },
    /// A bundle is inconsistent, or its transitions are not known.
    BundleInvalid(BundleId),
    /// A transition spends state of an unknown operation.
    TransitionAbsent(OpId),
    /// An operation that an input refers to is unknown.
    OperationAbsent(OpId),
    /// The operation that an input refers to assigns no state of the type.
    NoPrevState { opid: OpId, prev_id: OpId, state_type: AssignmentType },
    /// The operation that an input refers to has no assignment with the number.
    NoPrevOut(OpId, Opout),
    /// The seal of an assignment that an input refers to is concealed.
    ConfidentialSeal(Opout),
    /// The operation that an extension redeems a valency of is unknown.
    ValencyNoParent { opid: OpId, prev_id: OpId, valency: ValencyType },
    /// The operation that an extension redeems a valency of does not have it.
    NoPrevValency { opid: OpId, prev_id: OpId, valency: ValencyType },
    /// A transition has no anchor.
    NotAnchored(OpId),
    /// The anchor of a transition does not commit to it.
    NotInAnchor(OpId, Txid),
    /// A witness transaction can not be obtained.
    SealNoWitnessTx(Txid),
    /// A witness transaction does not close the seals that a transition spends.
    SealInvalid(OpId, Txid, SealError),
    /// The multi-protocol proof of an anchor is not that of the contract.
    MpcInvalid(OpId, Txid),
    /// A transition is not committed to by way of its anchor.
    AnchorInvalid(OpId, Txid, AnchorError),
}

/// What leaves a consignment valid, and should be known.
#[derive(Clone, Copy, PartialEq, Eq, Hash, Debug)]
pub enum Warning {
    /// The seal of a terminal is absent from a transition of its bundle.
    TerminalSealAbsent(OpId, SecretSeal),
    /// A transition is a terminal more than once.
    TerminalDuplication(OpId, SecretSeal),
    /// An operation is not an ancestor of any terminal.
    ExcessiveOperation(OpId),
    /// The witness transaction of a terminal is not mined yet.
    TerminalWitnessNotMined(Txid),
}

/// Summary of a [`Status`].
#[derive(Clone, Copy, PartialEq, Eq, Structural, Hash, Debug)]
pub enum Validity {
    /// There are no failures.
    Valid,
    /// There are no failures, and some terminals are not mined yet.
    ValidExceptEndpoints,
    /// There are failures, and some witness transactions could not be obtained.
    UnresolvedTransactions,
    /// There are failures.
    Invalid,
}

/// Contents of a [`Status`].
#[verifier::ext_equal]
pub struct Report {
    pub failures: Seq<Failure>,
    pub warnings: Seq<Warning>,
    pub unresolved_txids: Seq<Txid>,
    pub unmined_terminals: Seq<Txid>,
}

/// Holds of every transaction but one.
pub open spec fn other_than(txid: Txid) -> spec_fn(Txid) -> bool {
    |other: Txid| other != txid
}

impl Report {
    /// Nothing to report.
    pub open spec fn empty() -> Report {
        Report {
            failures: Seq::empty(),
            warnings: Seq::empty(),
            unresolved_txids: Seq::empty(),
            unmined_terminals: Seq::empty(),
        }
    }

    /// One failure more.
    pub open spec fn fail(self, failure: Failure) -> Report {
        Report { failures: self.failures.push(failure), ..self }
    }

    /// Some failures more.
    pub open spec fn fail_all(self, failures: Seq<Failure>) -> Report {
        Report { failures: self.failures + failures, ..self }
    }

    /// One warning more.
    pub open spec fn warn(self, warning: Warning) -> Report {
        Report { warnings: self.warnings.push(warning), ..self }
    }

    /// One unobtainable witness transaction more.
    pub open spec fn unresolve(self, txid: Txid) -> Report {
        Report {
            unresolved_txids: self.unresolved_txids.push(txid),
            ..self
        }.fail(Failure::SealNoWitnessTx(txid))
    }

    /// Two reports, one behind the other.
    pub open spec fn plus(self, other: Report) -> Report {
        Report {
            failures: self.failures + other.failures,
            warnings: self.warnings + other.warnings,
            unresolved_txids: self.unresolved_txids + other.unresolved_txids,
            unmined_terminals: self.unmined_terminals + other.unmined_terminals,
        }
    }

    /// Summary of the report.
    pub open spec fn validity(self) -> Validity {
        if self.failures.len() == 0 {
            if self.unmined_terminals.len() == 0 {
                Validity::Valid
            } else {
                Validity::ValidExceptEndpoints
            }
        } else {
            if self.unresolved_txids.len() == 0 {
                Validity::Invalid
            } else {
                Validity::UnresolvedTransactions
            }
        }
    }

    /// Index, from a given one on, of the failure to obtain a transaction.
    pub open spec fn find_unobtained(failures: Seq<Failure>, txid: Txid, from: int) -> Option<int>
        decreases failures.len() - from,
    {
        if from < 0 || from >= failures.len() {
            None
        } else if failures[from] == Failure::SealNoWitnessTx(txid) {
            Some(from)
        } else {
            Self::find_unobtained(failures, txid, from + 1)
        }
    }

    /// The transaction of a terminal taken for not mined yet, if it could not be obtained:
    /// one failure becomes a warning.
    pub open spec fn forgive(self, txid: Txid) -> Report {
        match Self::find_unobtained(self.failures, txid, 0) {
            Some(pos) => Report {
                failures: self.failures.remove(pos),
                unresolved_txids: self.unresolved_txids.filter(other_than(txid)),
                unmined_terminals: self.unmined_terminals.push(txid),
                warnings: self.warnings.push(Warning::TerminalWitnessNotMined(txid)),
            },
            None => self,
        }
    }
}

/// A report is made up part by part: a failure more, some failures more, a warning more or an
/// unobtainable transaction more leave the other parts as they are, and of two reports each part
/// of the second stands behind that of the first.
pub proof fn report_parts(
    report: Report,
    other: Report,
    failures: Seq<Failure>,
    failure: Failure,
    warning: Warning,
    txid: Txid,
)
    ensures
        Report::empty().failures.len() == 0,
        Report::empty().warnings.len() == 0,
        Report::empty().unresolved_txids.len() == 0,
        Report::empty().unmined_terminals.len() == 0,
        report.fail(failure) == (Report { failures: report.failures.push(failure), ..report }),
        report.fail_all(failures) == (Report { failures: report.failures + failures, ..report }),
        report.warn(warning) == (Report { warnings: report.warnings.push(warning), ..report }),
        report.unresolve(txid) == (Report {
            failures: report.failures.push(Failure::SealNoWitnessTx(txid)),
            unresolved_txids: report.unresolved_txids.push(txid),
            ..report
        }),
        report.plus(other).failures == report.failures + other.failures,
        report.plus(other).warnings == report.warnings + other.warnings,
        report.plus(other).unresolved_txids == report.unresolved_txids + other.unresolved_txids,
        report.plus(other).unmined_terminals == report.unmined_terminals
            + other.unmined_terminals,
{
}

/// What a report comes to depends on three things alone: whether there are failures, whether there
/// are transactions that could not be obtained, and whether there are unmined terminals. The
/// second matters only where there are failures, and the third only where there are none.
pub proof fn validity_iff(report: Report)
    ensures
        report.validity() == Validity::Valid <==> report.failures.len() == 0
            && report.unmined_terminals.len() == 0,
        report.validity() == Validity::ValidExceptEndpoints <==> report.failures.len() == 0
            && report.unmined_terminals.len() > 0,
        report.validity() == Validity::UnresolvedTransactions <==> report.failures.len() > 0
            && report.unresolved_txids.len() > 0,
        report.validity() == Validity::Invalid <==> report.failures.len() > 0
            && report.unresolved_txids.len() == 0,
{
}

proof fn find_unobtained_first(failures: Seq<Failure>, txid: Txid, from: int)
    requires
        0 <= from,
    ensures
        ({
            let failure = Failure::SealNoWitnessTx(txid);
            match Report::find_unobtained(failures, txid, from) {
                None => forall|i: int| from <= i < failures.len() ==> failures[i] != failure,
                Some(pos) => {
                    &&& from <= pos < failures.len()
                    &&& failures[pos] == failure
                    &&& forall|i: int| from <= i < pos ==> failures[i] != failure
                },
            }
        }),
    decreases failures.len() - from,
{
    if from < failures.len() {
        find_unobtained_first(failures, txid, from + 1);
    }
}

/// Taking a transaction for not mined yet takes away the first failure to obtain it and leaves the
/// other failures in their order, drops every mention of the transaction from those that could
/// not be obtained, and adds it to the unmined ones, with a warning. Without such a failure the
/// report stays as it is.
pub proof fn forgive_takes_first(report: Report, txid: Txid)
    ensures
        ({
            let failure = Failure::SealNoWitnessTx(txid);
            &&& !report.failures.contains(failure) ==> report.forgive(txid) == report
            &&& report.failures.contains(failure) ==> report.forgive(txid) == (Report {
                failures: report.failures.remove(report.failures.index_of_first(failure)->Some_0),
                unresolved_txids: report.unresolved_txids.filter(|other: Txid| other != txid),
                unmined_terminals: report.unmined_terminals.push(txid),
                warnings: report.warnings.push(Warning::TerminalWitnessNotMined(txid)),
            })
        }),
{
    let failure = Failure::SealNoWitnessTx(txid);
    find_unobtained_first(report.failures, txid, 0);
    report.failures.index_of_first_ensures(failure);
    assert(other_than(txid) =~= |other: Txid| other != txid);
    if report.failures.contains(failure) {
        let pos = report.failures.index_of_first(failure)->Some_0;
        let found = Report::find_unobtained(report.failures, txid, 0)->Some_0;
        assert(report.failures[pos] == failure);
        assert(report.failures[found] == failure);
        assert(pos == found);
    }
}

/// The report that validation makes.
#[derive(PartialEq, Eq, Debug)]
pub struct Status {
    /// What makes the consignment invalid.
    pub failures: Vec<Failure>,
    /// What leaves it valid, and should be known.
    pub warnings: Vec<Warning>,
    /// Witness transactions that could not be obtained.
    pub unresolved_txids: Vec<Txid>,
    /// Witness transactions of terminals that are not mined yet.
    pub unmined_terminals: Vec<Txid>,
}

impl View for Status {
    type V = Report;

    open spec fn view(&self) -> Report {
        Report {
            failures: self.failures@,
            warnings: self.warnings@,
            unresolved_txids: self.unresolved_txids@,
            unmined_terminals: self.unmined_terminals@,
        }
    }
}

impl Default for Status {
    fn default() -> (status: Status)
        ensures
            status@ == Report::empty(),
            status.failures@.len() == 0,
            status.warnings@.len() == 0,
            status.unresolved_txids@.len() == 0,
            status.unmined_terminals@.len() == 0,
    {
        Status {
            failures: Vec::new(),
            warnings: Vec::new(),
            unresolved_txids: Vec::new(),
            unmined_terminals: Vec::new(),
        }
    }
}

impl Status {
    /// Adds a failure.
    pub fn add_failure(&mut self, failure: Failure)
        ensures
            final(self)@ == old(self)@.fail(failure),
            final(self).failures@ == old(self).failures@.push(failure),
            final(self).warnings == old(self).warnings,
            final(self).unresolved_txids == old(self).unresolved_txids,
            final(self).unmined_terminals == old(self).unmined_terminals,
    {
        self.failures.push(failure);
    }

    /// Adds a warning.
    pub fn add_warning(&mut self, warning: Warning)
        ensures
            final(self)@ == old(self)@.warn(warning),
            final(self).failures == old(self).failures,
            final(self).warnings@ == old(self).warnings@.push(warning),
            final(self).unresolved_txids == old(self).unresolved_txids,
            final(self).unmined_terminals == old(self).unmined_terminals,
    {
        self.warnings.push(warning);
    }

    /// Adds a witness transaction that could not be obtained, and the failure it is.
    pub fn add_unresolved(&mut self, txid: Txid)
        ensures
            final(self)@ == old(self)@.unresolve(txid),
            final(self).failures@ == old(self).failures@.push(Failure::SealNoWitnessTx(txid)),
            final(self).warnings == old(self).warnings,
            final(self).unresolved_txids@ == old(self).unresolved_txids@.push(txid),
            final(self).unmined_terminals == old(self).unmined_terminals,
    {
        self.unresolved_txids.push(txid);
        self.add_failure(Failure::SealNoWitnessTx(txid));
    }

    /// Adds another report behind this one.
    pub fn merge(&mut self, mut other: Status)
        ensures
            final(self)@ == old(self)@.plus(other@),
            final(self).failures@ == old(self).failures@ + other.failures@,
            final(self).warnings@ == old(self).warnings@ + other.warnings@,
            final(self).unresolved_txids@ == old(self).unresolved_txids@ + other.unresolved_txids@,
            final(self).unmined_terminals@ == old(self).unmined_terminals@
                + other.unmined_terminals@,
    {
        self.failures.append(&mut other.failures);
        self.warnings.append(&mut other.warnings);
        self.unresolved_txids.append(&mut other.unresolved_txids);
        self.unmined_terminals.append(&mut other.unmined_terminals);
    }

    /// Summary of the report.
    pub fn validity(&self) -> (validity: Validity)
        ensures
            validity == self@.validity(),
            validity == Validity::Valid <==> self.failures@.len() == 0
                && self.unmined_terminals@.len() == 0,
            validity == Validity::ValidExceptEndpoints <==> self.failures@.len() == 0
                && self.unmined_terminals@.len() > 0,
            validity == Validity::UnresolvedTransactions <==> self.failures@.len() > 0
                && self.unresolved_txids@.len() > 0,
            validity == Validity::Invalid <==> self.failures@.len() > 0
                && self.unresolved_txids@.len() == 0,
    {
        if self.failures.len() == 0 {
            if self.unmined_terminals.len() == 0 {
                Validity::Valid
            } else {
                Validity::ValidExceptEndpoints
            }
        } else {
            if self.unresolved_txids.len() == 0 {
                Validity::Invalid
            } else {
                Validity::UnresolvedTransactions
            }
        }
    }

    /// Takes the transaction of a terminal for not mined yet, if it could not be obtained.
    pub fn forgive(&mut self, txid: Txid)
        ensures
            final(self)@ == old(self)@.forgive(txid),
            !old(self).failures@.contains(Failure::SealNoWitnessTx(txid)) ==> final(self)@
                == old(self)@,
            old(self).failures@.contains(Failure::SealNoWitnessTx(txid)) ==> {
                &&& final(self).warnings@ == old(self).warnings@.push(
                    Warning::TerminalWitnessNotMined(txid),
                )
                &&& final(self).unmined_terminals@ == old(self).unmined_terminals@.push(txid)
                &&& final(self).unresolved_txids@ == old(self).unresolved_txids@.filter(
                    |other: Txid| other != txid,
                )
                &&& final(self).failures@ == old(self).failures@.remove(
                    old(self).failures@.index_of_first(Failure::SealNoWitnessTx(txid))->Some_0,
                )
            },
    {
        proof {
            forgive_takes_first(self@, txid);
        }
        let mut pos: usize = 0;
        while pos < self.failures.len()
            invariant
                *self == *old(self),
                pos <= self.failures.len(),
                Report::find_unobtained(self.failures@, txid, 0) == Report::find_unobtained(
                    self.failures@,
                    txid,
                    pos as int,
                ),
            decreases self.failures.len() - pos,
        {
            if self.failures[pos].is_unobtained(txid) {
                let _ = self.failures.remove(pos);
                self.drop_unresolved(txid);
                self.unmined_terminals.push(txid);
                self.warnings.push(Warning::TerminalWitnessNotMined(txid));
                proof {
                    forgive_takes_first(old(self)@, txid);
                }
                return ;
            }
            pos = pos + 1;
        }
    }

    /// Removes a transaction from those that could not be obtained.
    fn drop_unresolved(&mut self, txid: Txid)
        ensures
            final(self).unresolved_txids@ == old(self).unresolved_txids@.filter(
                other_than(txid),
            ),
            final(self).failures == old(self).failures,
            final(self).warnings == old(self).warnings,
            final(self).unmined_terminals == old(self).unmined_terminals,
    {
        let ghost keep = other_than(txid);
        let mut kept: Vec<Txid> = Vec::new();
        let mut i: usize = 0;
        assert(self.unresolved_txids@.take(0).filter(keep) =~= Seq::empty()) by {
            reveal(Seq::filter);
        }
        while i < self.unresolved_txids.len()
            invariant
                *self == *old(self),
                i <= self.unresolved_txids.len(),
                keep == other_than(txid),
                kept@ == self.unresolved_txids@.take(i as int).filter(keep),
            decreases self.unresolved_txids.len() - i,
        {
            let other = self.unresolved_txids[i];
            proof {
                let taken = self.unresolved_txids@.take(i + 1);
                assert(taken.drop_last() =~= self.unresolved_txids@.take(i as int));
                reveal(Seq::filter);
            }
            if other != txid {
                kept.push(other);
            }
            i = i + 1;
        }
        assert(self.unresolved_txids@.take(i as int) =~= self.unresolved_txids@);
        self.unresolved_txids = kept;
    }
}

impl Failure {
    /// Whether the failure is that of obtaining a transaction.
    fn is_unobtained(&self, txid: Txid) -> (is: bool)
        ensures
            is == (*self == Failure::SealNoWitnessTx(txid)),
    {
        match self {
            Failure::SealNoWitnessTx(other) => *other == txid,
            _ => false,
        }
    }
}

} // verus!
