//! How many transactions are missed, and what becomes of them in the report.
use crate::contract::{AnchoredBundle, History, Input, Operation, Redeemed, Transition};
use crate::ids::{BundleId, OpId, SecretSeal, Txid};
use crate::validation::model::{bundle_failures, Ends, Progress, Reply};
use crate::validation::reporting::{forgive_moves_one, forgiving_keeps, unobtained_at};
use crate::validation::status::{Failure, Report};
use crate::validation::witness::{Anchor, TxModel};
use vstd::prelude::*;
use vstd::seq_lib::lemma_multiset_commutative;

verus! {

/// Whether there are no failures to obtain transactions among some failures.
pub open spec fn plain(failures: Seq<Failure>) -> bool {
    forall|i: int| 0 <= i < failures.len() ==> !(#[trigger] failures[i] is SealNoWitnessTx)
}

impl Report {
    /// How many failures to obtain a transaction there are.
    pub open spec fn missed(self, txid: Txid) -> nat {
        self.failures.to_multiset().count(Failure::SealNoWitnessTx(txid))
    }

    /// How many times a transaction is given as not obtained.
    pub open spec fn unresolved(self, txid: Txid) -> nat {
        self.unresolved_txids.to_multiset().count(txid)
    }

    /// How many times a transaction is excused as not mined yet.
    pub open spec fn excused(self, txid: Txid) -> nat {
        self.unmined_terminals.to_multiset().count(txid)
    }

    /// Whether a report does not mention a transaction.
    pub open spec fn silent(self, txid: Txid) -> bool {
        &&& !self.failures.contains(Failure::SealNoWitnessTx(txid))
        &&& !self.unresolved_txids.contains(txid)
        &&& !self.unmined_terminals.contains(txid)
    }
}

/// How many of the first questions for a transaction were not answered with one.
pub open spec fn errors(asked: Seq<Txid>, replies: Seq<Reply>, txid: Txid, upto: int) -> nat
    decreases upto,
{
    if upto <= 0 {
        0
    } else {
        errors(asked, replies, txid, upto - 1) + if asked[upto - 1] == txid && replies[upto
            - 1] is Err {
            1nat
        } else {
            0
        }
    }
}

impl History {
    /// How many of the ends from an index on have their anchors in a transaction.
    pub open spec fn ends_anchored_at(
        self,
        ends: Seq<(Transition, BundleId)>,
        from: int,
        txid: Txid,
    ) -> nat
        decreases ends.len() - from,
    {
        if from < 0 || from >= ends.len() {
            0
        } else {
            self.ends_anchored_at(ends, from + 1, txid) + if self.anchor(
                ends[from].0.id,
            ) matches Some(anchor) && anchor.parts().txid == txid {
                1nat
            } else {
                0
            }
        }
    }

    /// Whether the schema mentions a transaction in none of its reports of operations.
    pub open spec fn ops_silent(self, txid: Txid) -> bool {
        forall|operation: Operation| #[trigger] (self.op_report)(operation).silent(txid)
    }

    /// Whether the schema mentions a transaction in none of its reports.
    pub open spec fn schema_silent(self, txid: Txid) -> bool {
        &&& self.schema_report.silent(txid)
        &&& self.ops_silent(txid)
    }

    /// Whether, from one state of validation to another, the questions for a transaction that
    /// were not answered are excused, one for each end that is anchored in it as long as there
    /// are any, and the others are failures.
    pub open spec fn balanced(
        self,
        before: Progress,
        after: Progress,
        replies: Seq<Reply>,
        txid: Txid,
    ) -> bool {
        let missed = errors(after.asked, replies, txid, after.asked.len() as int) - errors(
            before.asked,
            replies,
            txid,
            before.asked.len() as int,
        );
        let anchored = self.ends_anchored_at(self.ends().transitions, 0, txid);
        &&& missed >= 0
        &&& after.report.excused(txid) == lesser(anchored, missed as nat)
        &&& after.report.missed(txid) + after.report.excused(txid) == missed
    }
}

/// Smaller of two numbers.
pub open spec fn lesser(a: nat, b: nat) -> nat {
    if a <= b {
        a
    } else {
        b
    }
}

pub(crate) proof fn absent_failures_plain(history: History, inputs: Seq<Input>, from: int)
    ensures
        plain(history.absent_failures(inputs, from)),
    decreases inputs.len() - from,
{
    if 0 <= from < inputs.len() {
        absent_failures_plain(history, inputs, from + 1);
    }
}

pub(crate) proof fn valency_failures_plain(
    history: History,
    opid: OpId,
    redeemed: Seq<Redeemed>,
    from: int,
)
    ensures
        plain(history.valency_failures(opid, redeemed, from)),
    decreases redeemed.len() - from,
{
    if 0 <= from < redeemed.len() {
        valency_failures_plain(history, opid, redeemed, from + 1);
    }
}

pub(crate) proof fn input_failures_plain(
    history: History,
    opid: OpId,
    inputs: Seq<Input>,
    from: int,
)
    ensures
        plain(history.input_failures(opid, inputs, from)),
    decreases inputs.len() - from,
{
    if 0 <= from < inputs.len() {
        input_failures_plain(history, opid, inputs, from + 1);
    }
}

pub(crate) proof fn parent_failures_plain(history: History, operation: Operation)
    ensures
        plain(history.parent_failures(operation)),
{
    match operation {
        Operation::Genesis(_) => {},
        Operation::Transition(transition) => {
            absent_failures_plain(history, transition.inputs@, 0);
        },
        Operation::Extension(extension) => {
            valency_failures_plain(history, extension.id, extension.redeemed@, 0);
        },
    }
}

pub(crate) proof fn witness_failures_plain(
    history: History,
    transition: Transition,
    bundle_id: BundleId,
    anchor: Anchor,
    tx: TxModel,
)
    ensures
        plain(history.witness_failures(transition, bundle_id, anchor, tx)),
{
    input_failures_plain(history, transition.id, transition.inputs@, 0);
}

proof fn plain_counts_nothing(failures: Seq<Failure>, txid: Txid)
    requires
        plain(failures),
    ensures
        failures.to_multiset().count(Failure::SealNoWitnessTx(txid)) == 0,
{
    broadcast use vstd::seq_lib::group_to_multiset_ensures;

    assert(!failures.contains(Failure::SealNoWitnessTx(txid)));
}

proof fn absent_counts_nothing<T>(items: Seq<T>, item: T)
    requires
        !items.contains(item),
    ensures
        items.to_multiset().count(item) == 0,
{
    broadcast use vstd::seq_lib::group_to_multiset_ensures;

}

proof fn both_count<T>(items: Seq<T>, more: Seq<T>, item: T)
    ensures
        (items + more).to_multiset().count(item) == items.to_multiset().count(item)
            + more.to_multiset().count(item),
{
    lemma_multiset_commutative(items, more);
}

proof fn one_counts<T>(one: T, item: T)
    ensures
        seq![one].to_multiset().count(item) == if one == item {
            1nat
        } else {
            0
        },
{
    broadcast use vstd::seq_lib::group_to_multiset_ensures;

    let none = Seq::<T>::empty();
    assert(seq![one] =~= none.push(one));
    assert(!none.contains(item));
}

proof fn plus_counts(report: Report, other: Report, txid: Txid)
    ensures
        report.plus(other).missed(txid) == report.missed(txid) + other.missed(txid),
        report.plus(other).unresolved(txid) == report.unresolved(txid) + other.unresolved(txid),
        report.plus(other).excused(txid) == report.excused(txid) + other.excused(txid),
{
    both_count(report.failures, other.failures, Failure::SealNoWitnessTx(txid));
    both_count(report.unresolved_txids, other.unresolved_txids, txid);
    both_count(report.unmined_terminals, other.unmined_terminals, txid);
}

proof fn silent_counts_nothing(report: Report, txid: Txid)
    requires
        report.silent(txid),
    ensures
        report.missed(txid) == 0,
        report.unresolved(txid) == 0,
        report.excused(txid) == 0,
{
    absent_counts_nothing(report.failures, Failure::SealNoWitnessTx(txid));
    absent_counts_nothing(report.unresolved_txids, txid);
    absent_counts_nothing(report.unmined_terminals, txid);
}

proof fn errors_of_prefix(
    asked: Seq<Txid>,
    longer: Seq<Txid>,
    replies: Seq<Reply>,
    txid: Txid,
    upto: int,
)
    requires
        asked.is_prefix_of(longer),
        upto <= asked.len(),
    ensures
        errors(asked, replies, txid, upto) == errors(longer, replies, txid, upto),
    decreases upto,
{
    if upto > 0 {
        errors_of_prefix(asked, longer, replies, txid, upto - 1);
    }
}

impl Progress {
    /// Whether the failures to obtain a transaction so far, and its mentions as not obtained, are
    /// as many as the questions for it that were not answered, some before aside, and it is not
    /// excused.
    spec fn tallied(self, replies: Seq<Reply>, txid: Txid, before: nat) -> bool {
        let missed = errors(self.asked, replies, txid, self.asked.len() as int);
        &&& self.report.missed(txid) + before == missed
        &&& self.report.unresolved(txid) + before == missed
        &&& self.report.excused(txid) == 0
    }
}

proof fn plain_failures_tallied(
    progress: Progress,
    failures: Seq<Failure>,
    replies: Seq<Reply>,
    txid: Txid,
    before: nat,
)
    requires
        progress.tallied(replies, txid, before),
        plain(failures),
    ensures
        progress.fail_all(failures).tallied(replies, txid, before),
{
    both_count(progress.report.failures, failures, Failure::SealNoWitnessTx(txid));
    plain_counts_nothing(failures, txid);
}

proof fn plain_failure_tallied(
    progress: Progress,
    failure: Failure,
    replies: Seq<Reply>,
    txid: Txid,
    before: nat,
)
    requires
        progress.tallied(replies, txid, before),
        !(failure is SealNoWitnessTx),
    ensures
        progress.fail(failure).tallied(replies, txid, before),
{
    plain_failures_tallied(progress, seq![failure], replies, txid, before);
    assert(progress.fail(failure) =~= progress.fail_all(seq![failure]));
}

proof fn schema_check_tallied(
    history: History,
    operation: Operation,
    progress: Progress,
    replies: Seq<Reply>,
    txid: Txid,
    before: nat,
)
    requires
        history.ops_silent(txid),
        progress.tallied(replies, txid, before),
    ensures
        history.check_schema(operation, progress).tallied(replies, txid, before),
{
    let report = (history.op_report)(operation);
    assert(report.silent(txid));
    plus_counts(progress.report, report, txid);
    silent_counts_nothing(report, txid);
}

proof fn ask_tallied(
    history: History,
    transition: Transition,
    bundle_id: BundleId,
    anchor: Anchor,
    progress: Progress,
    replies: Seq<Reply>,
    txid: Txid,
    before: nat,
)
    requires
        progress.tallied(replies, txid, before),
    ensures
        history.ask(transition, bundle_id, anchor, progress, replies).tallied(
            replies,
            txid,
            before,
        ),
{
    let i = progress.asked.len() as int;
    let question = anchor.parts().txid;
    let report = history.transition_report(transition, bundle_id, anchor, replies[i]);
    let next = history.ask(transition, bundle_id, anchor, progress, replies);
    plus_counts(progress.report, report, txid);
    absent_counts_nothing(Seq::<Txid>::empty(), txid);
    errors_of_prefix(progress.asked, next.asked, replies, txid, i);
    match replies[i] {
        Ok(tx) => {
            let failures = history.witness_failures(transition, bundle_id, anchor, tx@);
            assert(report.failures =~= failures);
            witness_failures_plain(history, transition, bundle_id, anchor, tx@);
            plain_counts_nothing(failures, txid);
        },
        Err(_) => {
            assert(report.failures =~= seq![Failure::SealNoWitnessTx(question)]);
            assert(report.unresolved_txids =~= seq![question]);
            one_counts(Failure::SealNoWitnessTx(question), Failure::SealNoWitnessTx(txid));
            one_counts(question, txid);
        },
    }
}

proof fn visit_tallied(
    history: History,
    operation: Operation,
    named: Option<BundleId>,
    progress: Progress,
    replies: Seq<Reply>,
    txid: Txid,
    before: nat,
)
    requires
        history.ops_silent(txid),
        progress.tallied(replies, txid, before),
    ensures
        history.visit(operation, named, progress, replies).tallied(replies, txid, before),
{
    let checked = history.check_schema(operation, progress);
    schema_check_tallied(history, operation, progress, replies, txid, before);
    parent_failures_plain(history, operation);
    let anchored = match operation {
        Operation::Transition(transition) => history.check_anchor(
            transition,
            named,
            checked,
            replies,
        ),
        _ => checked,
    };
    if let Operation::Transition(transition) = operation {
        match history.anchored(transition.id) {
            None => {
                plain_failure_tallied(
                    checked,
                    Failure::NotAnchored(transition.id),
                    replies,
                    txid,
                    before,
                );
            },
            Some(found) => {
                let anchor = found.anchor;
                let bundle_id = match named {
                    Some(bundle_id) => bundle_id,
                    None => found.bundle.bundle_id,
                };
                let failure = Failure::NotInAnchor(transition.id, anchor.parts().txid);
                plain_failure_tallied(checked, failure, replies, txid, before);
                ask_tallied(
                    history,
                    transition,
                    bundle_id,
                    anchor,
                    checked,
                    replies,
                    txid,
                    before,
                );
                ask_tallied(
                    history,
                    transition,
                    bundle_id,
                    anchor,
                    checked.fail(failure),
                    replies,
                    txid,
                    before,
                );
            },
        }
    }
    assert(anchored.tallied(replies, txid, before));
    plain_failures_tallied(anchored, history.parent_failures(operation), replies, txid, before);
}

proof fn walk_tallied(
    history: History,
    queue: Seq<Operation>,
    visits: nat,
    named: Option<BundleId>,
    progress: Progress,
    replies: Seq<Reply>,
    txid: Txid,
    before: nat,
)
    requires
        history.ops_silent(txid),
        progress.tallied(replies, txid, before),
    ensures
        history.walk(queue, visits, named, progress, replies).tallied(replies, txid, before),
    decreases visits,
{
    if visits > 0 && queue.len() > 0 {
        visit_tallied(history, queue[0], named, progress, replies, txid, before);
        walk_tallied(
            history,
            history.advance(queue),
            (visits - 1) as nat,
            None,
            history.visit(queue[0], named, progress, replies),
            replies,
            txid,
            before,
        );
    }
}

proof fn branches_tallied(
    history: History,
    ends: Seq<(Transition, BundleId)>,
    from: int,
    progress: Progress,
    replies: Seq<Reply>,
    txid: Txid,
    before: nat,
)
    requires
        history.ops_silent(txid),
        progress.tallied(replies, txid, before),
    ensures
        history.branches(ends, from, progress, replies).tallied(replies, txid, before),
    decreases ends.len() - from,
{
    if 0 <= from < ends.len() {
        let queue = seq![Operation::Transition(ends[from].0)];
        let visits = choose|visits: nat| history.ends_after(queue, visits);
        let named = Some(ends[from].1);
        walk_tallied(history, queue, visits, named, progress, replies, txid, before);
        branches_tallied(
            history,
            ends,
            from + 1,
            history.branch(ends[from].0, ends[from].1, progress, replies),
            replies,
            txid,
            before,
        );
    }
}

impl Ends {
    /// Whether nothing is reported of transactions.
    spec fn bare(self) -> bool {
        &&& plain(self.report.failures)
        &&& self.report.unresolved_txids.len() == 0
        &&& self.report.unmined_terminals.len() == 0
    }
}

proof fn bundle_failures_plain(bundles: Seq<AnchoredBundle>, from: int)
    ensures
        plain(bundle_failures(bundles, from)),
    decreases bundles.len() - from,
{
    if 0 <= from < bundles.len() {
        bundle_failures_plain(bundles, from + 1);
    }
}

proof fn note_all_bare(
    ends: Ends,
    transitions: Seq<Transition>,
    from: int,
    bundle_id: BundleId,
    seal: SecretSeal,
)
    requires
        ends.bare(),
    ensures
        ends.note_all(transitions, from, bundle_id, seal).bare(),
    decreases transitions.len() - from,
{
    if 0 <= from < transitions.len() {
        let next = ends.note(transitions[from], bundle_id, seal);
        note_all_bare(next, transitions, from + 1, bundle_id, seal);
    }
}

proof fn note_terminals_bare(history: History, ends: Ends, from: int)
    requires
        ends.bare(),
    ensures
        ends.note_terminals(history, from).bare(),
    decreases history.terminals.len() - from,
{
    if 0 <= from < history.terminals.len() {
        let (bundle_id, seal) = history.terminals[from];
        let bundled = history.bundled[bundle_id];
        if history.bundled.contains_key(bundle_id) {
            note_all_bare(ends, bundled, 0, bundle_id, seal);
            let next = ends.note_all(bundled, 0, bundle_id, seal);
            note_terminals_bare(history, next, from + 1);
        } else {
            let report = ends.report.fail(Failure::BundleInvalid(bundle_id));
            note_terminals_bare(history, Ends { report, ..ends }, from + 1);
        }
    }
}

proof fn started_silent(history: History, txid: Txid)
    requires
        history.schema_silent(txid),
    ensures
        history.started().report.silent(txid),
{
    let bundles = Report::empty().fail_all(bundle_failures(history.bundles, 0));
    let ends = history.ends();
    bundle_failures_plain(history.bundles, 0);
    note_terminals_bare(history, Ends { report: bundles, transitions: Seq::empty() }, 0);
    let failure = Failure::SealNoWitnessTx(txid);
    let failures = history.started().report.failures;
    if failures.contains(failure) {
        let i = failures.index_of(failure);
        if i >= ends.report.failures.len() {
            let j = i - ends.report.failures.len();
            assert(history.schema_report.failures[j] == failure);
        }
    }
    assert(history.started().report.unresolved_txids =~= history.schema_report.unresolved_txids);
    assert(history.started().report.unmined_terminals
        =~= history.schema_report.unmined_terminals);
}

proof fn found_tallied(history: History, progress: Progress, replies: Seq<Reply>, txid: Txid)
    requires
        progress.report.silent(txid),
        history.ops_silent(txid),
    ensures
        history.found(progress).tallied(
            replies,
            txid,
            errors(progress.asked, replies, txid, progress.asked.len() as int),
        ),
{
    let genesis = (history.op_report)(Operation::Genesis(history.genesis));
    assert(genesis.silent(txid));
    silent_counts_nothing(progress.report, txid);
    silent_counts_nothing(genesis, txid);
    plus_counts(progress.report, genesis, txid);
}

proof fn forgive_counts(report: Report, other: Txid, txid: Txid)
    ensures
        ({
            let next = report.forgive(other);
            let one = if other == txid && report.missed(txid) > 0 {
                1nat
            } else {
                0
            };
            &&& next.missed(txid) + one == report.missed(txid)
            &&& next.excused(txid) == report.excused(txid) + one
        }),
{
    broadcast use vstd::seq_lib::group_to_multiset_ensures;

    unobtained_at(report.failures, other, 0);
    if Report::find_unobtained(report.failures, other, 0) is None && other == txid {
        assert(!report.failures.contains(Failure::SealNoWitnessTx(txid)));
    }
}

pub(crate) proof fn forgiving_counts(
    history: History,
    ends: Seq<(Transition, BundleId)>,
    from: int,
    report: Report,
    txid: Txid,
)
    ensures
        ({
            let last = history.forgive(ends, from, report);
            let forgiven = lesser(
                history.ends_anchored_at(ends, from, txid),
                report.missed(txid),
            );
            &&& last.missed(txid) + forgiven == report.missed(txid)
            &&& last.excused(txid) == report.excused(txid) + forgiven
        }),
    decreases ends.len() - from,
{
    if 0 <= from < ends.len() {
        match history.anchor(ends[from].0.id) {
            Some(anchor) => {
                forgive_counts(report, anchor.parts().txid, txid);
                forgiving_counts(
                    history,
                    ends,
                    from + 1,
                    report.forgive(anchor.parts().txid),
                    txid,
                );
            },
            None => {
                forgiving_counts(history, ends, from + 1, report, txid);
            },
        }
    }
}

/// In the check of the contract, each end that is anchored in a transaction excuses one question
/// for it that was not answered, as long as there are any, and none is lost: those that are not
/// excused are failures. The transaction is one that neither the report before nor the schema
/// mentions.
pub proof fn contract_balanced(
    history: History,
    progress: Progress,
    replies: Seq<Reply>,
    txid: Txid,
)
    requires
        history.schema_id == history.genesis.schema_id,
        progress.report.silent(txid),
        history.ops_silent(txid),
    ensures
        history.balanced(progress, history.contract(progress, replies), replies, txid),
{
    let ends = history.ends().transitions;
    let founded = history.found(progress);
    let before = errors(progress.asked, replies, txid, progress.asked.len() as int);
    let visited = history.branches(ends, 0, founded, replies);
    found_tallied(history, progress, replies, txid);
    branches_tallied(history, ends, 0, founded, replies, txid, before);
    forgiving_counts(history, ends, 0, visited.report, txid);
}

/// Of a transaction that the schema does not mention, each end that is anchored in it excuses one
/// question that was not answered, as long as there are any, and none is lost: those that are not
/// excused are failures.
pub proof fn missed_or_excused(history: History, replies: Seq<Reply>, txid: Txid)
    requires
        history.goes_on(),
        history.schema_silent(txid),
    ensures
        ({
            let last = history.validation(replies);
            let missed = errors(last.asked, replies, txid, last.asked.len() as int);
            let anchored = history.ends_anchored_at(history.ends().transitions, 0, txid);
            &&& last.report.excused(txid) == lesser(anchored, missed)
            &&& last.report.missed(txid) + last.report.excused(txid) == missed
        }),
{
    started_silent(history, txid);
    contract_balanced(history, history.started(), replies, txid);
}

proof fn unforgiven_stays(
    history: History,
    ends: Seq<(Transition, BundleId)>,
    from: int,
    report: Report,
    txid: Txid,
)
    requires
        0 <= from,
        history.ends_anchored_at(ends, from, txid) == 0,
        report.unresolved_txids.contains(txid),
    ensures
        history.forgive(ends, from, report).unresolved_txids.contains(txid),
    decreases ends.len() - from,
{
    if from < ends.len() {
        match history.anchor(ends[from].0.id) {
            Some(anchor) => {
                let other = anchor.parts().txid;
                forgive_moves_one(report, other);
                unforgiven_stays(history, ends, from + 1, report.forgive(other), txid);
            },
            None => {
                unforgiven_stays(history, ends, from + 1, report, txid);
            },
        }
    }
}

proof fn errors_found(asked: Seq<Txid>, replies: Seq<Reply>, txid: Txid, upto: int, i: int)
    requires
        0 <= i < upto,
        asked[i] == txid,
        replies[i] is Err,
    ensures
        errors(asked, replies, txid, upto) > 0,
    decreases upto,
{
    if i < upto - 1 {
        errors_found(asked, replies, txid, upto - 1, i);
    }
}

/// A transaction that was asked for and not obtained, and that the schema does not mention, is
/// either among those that could not be obtained or among the unmined ones, and never among both.
pub proof fn unobtained_is_unresolved_or_unmined(
    history: History,
    replies: Seq<Reply>,
    question: int,
)
    requires
        history.goes_on(),
        0 <= question < history.validation(replies).asked.len(),
        replies[question] is Err,
        history.schema_silent(history.validation(replies).asked[question]),
    ensures
        ({
            let last = history.validation(replies);
            let txid = last.asked[question];
            last.report.unresolved_txids.contains(txid) != last.report.unmined_terminals.contains(
                txid,
            )
        }),
{
    broadcast use vstd::seq_lib::group_to_multiset_ensures;

    let ends = history.ends().transitions;
    let founded = history.found(history.started());
    let visited = history.branches(ends, 0, founded, replies);
    let last = history.validation(replies);
    let txid = last.asked[question];
    assert(last.asked == visited.asked);
    started_silent(history, txid);
    found_tallied(history, history.started(), replies, txid);
    branches_tallied(history, ends, 0, founded, replies, txid, 0);
    errors_found(visited.asked, replies, txid, visited.asked.len() as int, question);
    forgiving_counts(history, ends, 0, visited.report, txid);
    forgiving_keeps(history, ends, 0, visited.report);
    let forgiven = history.forgive(ends, 0, visited.report);
    assert(visited.report.unresolved_txids.contains(txid));
    assert(!visited.report.unmined_terminals.contains(txid));
    if history.ends_anchored_at(ends, 0, txid) == 0 {
        unforgiven_stays(history, ends, 0, visited.report, txid);
        assert(forgiven.excused(txid) == 0);
    } else {
        assert(forgiven.excused(txid) > 0);
        assert(forgiven.unmined_terminals.contains(txid));
        let i = forgiven.unmined_terminals.index_of(txid);
        if i < visited.report.unmined_terminals.len() {
            assert(visited.report.unmined_terminals[i] == txid);
        }
        assert(!forgiven.unresolved_txids.contains(forgiven.unmined_terminals[i]));
    }
}

/// The questions for a transaction that were not answered are counted one by one: as many as there
/// are questions for it whose reply gives no transaction.
pub proof fn errors_counted(asked: Seq<Txid>, replies: Seq<Reply>, txid: Txid, upto: nat)
    ensures
        errors(asked, replies, txid, upto as int) == Seq::new(
            upto,
            |i: int| (asked[i], replies[i] is Err),
        ).filter(|question: (Txid, bool)| question.0 == txid && question.1).len(),
    decreases upto,
{
    reveal(Seq::filter);
    let f = |i: int| (asked[i], replies[i] is Err);
    if upto > 0 {
        errors_counted(asked, replies, txid, (upto - 1) as nat);
        assert(Seq::new(upto, f).drop_last() =~= Seq::new((upto - 1) as nat, f));
    }
}

/// The ends that have their anchors in a transaction are counted one by one.
pub proof fn ends_counted(
    history: History,
    ends: Seq<(Transition, BundleId)>,
    from: int,
    txid: Txid,
)
    requires
        0 <= from <= ends.len(),
    ensures
        history.ends_anchored_at(ends, from, txid) == ends.skip(from).filter(
            |end: (Transition, BundleId)|
                history.anchored(end.0.id) is Some && history.anchored(
                    end.0.id,
                )->Some_0.anchor.parts().txid == txid,
        ).len(),
    decreases ends.len() - from,
{
    let f = |end: (Transition, BundleId)|
        history.anchored(end.0.id) is Some && history.anchored(
            end.0.id,
        )->Some_0.anchor.parts().txid == txid;
    if from < ends.len() {
        ends_counted(history, ends, from + 1, txid);
        let first = seq![ends[from]];
        assert(ends.skip(from) =~= first + ends.skip(from + 1));
        Seq::filter_distributes_over_add(first, ends.skip(from + 1), f);
        assert(first.filter(f).len() == if f(ends[from]) {
            1nat
        } else {
            0
        }) by {
            reveal(Seq::filter);
            let rest = first.drop_last();
            assert(rest =~= Seq::empty());
            assert(rest.filter(f) =~= Seq::empty());
            assert(first.last() == ends[from]);
        }
    } else {
        assert(ends.skip(from) =~= Seq::empty());
        assert(ends.skip(from).filter(f).len() == 0) by {
            reveal(Seq::filter);
        }
    }
}

} // verus!
