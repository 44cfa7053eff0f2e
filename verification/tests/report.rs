use rgb_validation::ids::{OpId, SecretSeal, Txid};
use rgb_validation::validation::status::{Failure, Status, Validity, Warning};

fn txid(n: u8) -> Txid {
    Txid([n; 32])
}

fn missing(n: u8) -> Failure {
    Failure::SealNoWitnessTx(txid(n))
}

fn absent(n: u8) -> Failure {
    Failure::TransitionAbsent(OpId([n; 32]))
}

#[test]
fn nothing_reported_is_valid() {
    let status = Status::default();
    assert_eq!(status.validity(), Validity::Valid);
    assert!(status.failures.is_empty() && status.warnings.is_empty());
}

#[test]
fn warnings_leave_a_report_valid() {
    let mut status = Status::default();
    status.add_warning(Warning::TerminalSealAbsent(OpId([1; 32]), SecretSeal([2; 32])));
    assert_eq!(status.validity(), Validity::Valid);
}

#[test]
fn failures_make_a_report_invalid() {
    let mut status = Status::default();
    status.add_failure(absent(1));
    assert_eq!(status.validity(), Validity::Invalid);
}

#[test]
fn unobtained_transactions_leave_a_report_open() {
    let mut status = Status::default();
    status.add_unresolved(txid(1));
    assert_eq!(status.unresolved_txids, vec![txid(1)]);
    assert_eq!(status.failures, vec![missing(1)]);
    assert_eq!(status.validity(), Validity::UnresolvedTransactions);
    status.add_failure(absent(1));
    assert_eq!(status.validity(), Validity::UnresolvedTransactions);
}

#[test]
fn forgiven_transactions_are_unmined() {
    let mut status = Status::default();
    status.add_unresolved(txid(1));
    status.forgive(txid(1));
    assert!(status.failures.is_empty());
    assert!(status.unresolved_txids.is_empty());
    assert_eq!(status.unmined_terminals, vec![txid(1)]);
    assert_eq!(status.warnings, vec![Warning::TerminalWitnessNotMined(txid(1))]);
    assert_eq!(status.validity(), Validity::ValidExceptEndpoints);
}

#[test]
fn forgiving_takes_one_failure_and_every_mention() {
    let mut status = Status::default();
    status.add_unresolved(txid(1));
    status.add_failure(absent(3));
    status.add_unresolved(txid(2));
    status.add_unresolved(txid(1));
    status.forgive(txid(1));
    assert_eq!(status.failures, vec![absent(3), missing(2), missing(1)]);
    assert_eq!(status.unresolved_txids, vec![txid(2)]);
    status.forgive(txid(1));
    assert_eq!(status.failures, vec![absent(3), missing(2)]);
    assert_eq!(status.unmined_terminals, vec![txid(1), txid(1)]);
}

#[test]
fn forgiving_an_obtained_transaction_changes_nothing() {
    let mut status = Status::default();
    status.add_unresolved(txid(1));
    status.forgive(txid(2));
    let mut same = Status::default();
    same.add_unresolved(txid(1));
    assert_eq!(status, same);
}

#[test]
fn reports_are_put_one_behind_the_other() {
    let mut status = Status::default();
    status.add_failure(absent(1));
    status.add_warning(Warning::ExcessiveOperation(OpId([1; 32])));
    let mut other = Status::default();
    other.add_unresolved(txid(2));
    other.add_warning(Warning::ExcessiveOperation(OpId([2; 32])));
    other.unmined_terminals.push(txid(3));
    status.merge(other);
    assert_eq!(status.failures, vec![absent(1), missing(2)]);
    assert_eq!(
        status.warnings,
        vec![
            Warning::ExcessiveOperation(OpId([1; 32])),
            Warning::ExcessiveOperation(OpId([2; 32])),
        ]
    );
    assert_eq!(status.unresolved_txids, vec![txid(2)]);
    assert_eq!(status.unmined_terminals, vec![txid(3)]);
}
