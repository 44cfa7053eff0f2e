//! What validation is sure to report.
use crate::contract::{AnchoredBundle, History, Operation, Transition};
use crate::ids::{BundleId, OpId, SecretSeal, Txid};
use crate::validation::laws::{branches_extend, walk_extends};
use crate::validation::model::{bundle_failures, find_bundle, is_end, Ends, Progress, Reply};
use crate::validation::status::{other_than, Failure, Report, Warning};
use crate::validation::validator::ancestry_finite;
use crate::validation::witness::AnchorError;
use vstd::prelude::*;

verus! {

impl Ends {
    /// Whether no two ends are the same transition.
    pub open spec fn distinct(self) -> bool {
        forall|i: int, j: int|
            0 <= i < j < self.transitions.len() ==> (#[trigger] self.transitions[i]).0.id != (
            #[trigger] self.transitions[j]).0.id
    }

    /// Whether each end is a known transition of the bundle of a terminal.
    pub open spec fn terminal(self, history: History) -> bool {
        forall|i: int|
            0 <= i < self.transitions.len() ==> history.terminates(
                (#[trigger] self.transitions[i]).0,
                self.transitions[i].1,
            )
    }
}

impl History {
    /// Whether a transition is known of a bundle, and the bundle is that of a terminal.
    pub open spec fn terminates(self, transition: Transition, bundle_id: BundleId) -> bool {
        &&& self.bundled.contains_key(bundle_id)
        &&& self.bundled[bundle_id].contains(transition)
        &&& exists|i: int|
            0 <= i < self.terminals.len() && (#[trigger] self.terminals[i]).0 == bundle_id
    }

    /// What is wrong with an operation by itself and in what it refers to, apart from the
    /// schema.
    pub open spec fn defects(self, operation: Operation) -> Seq<Failure> {
        let unanchored = if operation is Transition && self.anchor(operation.id()) is None {
            seq![Failure::NotAnchored(operation.id())]
        } else {
            Seq::empty()
        };
        unanchored + self.parent_failures(operation)
    }
}

proof fn note_all_keeps(
    history: History,
    ends: Ends,
    transitions: Seq<Transition>,
    from: int,
    bundle_id: BundleId,
    seal: SecretSeal,
)
    requires
        ends.distinct(),
        ends.terminal(history),
        0 <= from,
        forall|i: int|
            from <= i < transitions.len() ==> history.terminates(
                #[trigger] transitions[i],
                bundle_id,
            ),
    ensures
        ends.note_all(transitions, from, bundle_id, seal).distinct(),
        ends.note_all(transitions, from, bundle_id, seal).terminal(history),
        ends.note_all(transitions, from, bundle_id, seal).report.extends(ends.report),
        ends.transitions.is_prefix_of(
            ends.note_all(transitions, from, bundle_id, seal).transitions,
        ),
        forall|i: int|
            from <= i < transitions.len() ==> is_end(
                ends.note_all(transitions, from, bundle_id, seal).transitions,
                (#[trigger] transitions[i]).id,
            ),
        forall|i: int|
            from <= i < transitions.len() && !(#[trigger] transitions[i]).conceals(seal)
                ==> ends.note_all(transitions, from, bundle_id, seal).report.warnings.contains(
                Warning::TerminalSealAbsent(transitions[i].id, seal),
            ),
    decreases transitions.len() - from,
{
    if from < transitions.len() {
        let transition = transitions[from];
        let next = ends.note(transition, bundle_id, seal);
        let last = next.note_all(transitions, from + 1, bundle_id, seal);
        note_all_keeps(history, next, transitions, from + 1, bundle_id, seal);
        if is_end(ends.transitions, transition.id) {
            let i = choose|i: int|
                0 <= i < ends.transitions.len() && (#[trigger] ends.transitions[i]).0.id
                    == transition.id;
            assert(last.transitions[i] == ends.transitions[i]);
        } else {
            let i = ends.transitions.len() as int;
            assert(next.transitions[i] == (transition, bundle_id));
            assert(last.transitions[i] == next.transitions[i]);
        }
        assert(is_end(last.transitions, transition.id));
        if !transition.conceals(seal) {
            let i = ends.report.warnings.len() as int;
            let warning = Warning::TerminalSealAbsent(transition.id, seal);
            assert(next.report.warnings[i] == warning);
            assert(last.report.warnings[i] == warning);
        }
    }
}

proof fn note_terminals_keeps(history: History, ends: Ends, from: int)
    requires
        ends.distinct(),
        ends.terminal(history),
        0 <= from,
    ensures
        ends.note_terminals(history, from).distinct(),
        ends.note_terminals(history, from).terminal(history),
        ends.note_terminals(history, from).report.extends(ends.report),
        ends.transitions.is_prefix_of(ends.note_terminals(history, from).transitions),
    decreases history.terminals.len() - from,
{
    if from < history.terminals.len() {
        let (bundle_id, seal) = history.terminals[from];
        let bundled = history.bundled[bundle_id];
        if history.bundled.contains_key(bundle_id) {
            note_all_keeps(history, ends, bundled, 0, bundle_id, seal);
            note_terminals_keeps(
                history,
                ends.note_all(bundled, 0, bundle_id, seal),
                from + 1,
            );
        } else {
            note_terminals_keeps(
                history,
                Ends { report: ends.report.fail(Failure::BundleInvalid(bundle_id)), ..ends },
                from + 1,
            );
        }
    }
}

/// The ends of a history are all different, and each is a known transition of the bundle of a
/// terminal.
pub proof fn ends_distinct(history: History)
    ensures
        history.ends().distinct(),
        history.ends().terminal(history),
        history.ends().report.extends(
            Report::empty().fail_all(bundle_failures(history.bundles, 0)),
        ),
{
    let report = Report::empty().fail_all(bundle_failures(history.bundles, 0));
    note_terminals_keeps(history, Ends { report, transitions: Seq::empty() }, 0);
}

proof fn note_terminals_notes(history: History, ends: Ends, from: int, terminal: int)
    requires
        ends.distinct(),
        ends.terminal(history),
        0 <= from <= terminal < history.terminals.len(),
    ensures
        ({
            let last = ends.note_terminals(history, from);
            let (bundle_id, seal) = history.terminals[terminal];
            if history.bundled.contains_key(bundle_id) {
                forall|i: int|
                    0 <= i < history.bundled[bundle_id].len() ==> {
                        let transition = #[trigger] history.bundled[bundle_id][i];
                        &&& is_end(last.transitions, transition.id)
                        &&& !transition.conceals(seal) ==> last.report.warnings.contains(
                            Warning::TerminalSealAbsent(transition.id, seal),
                        )
                    }
            } else {
                last.report.failures.contains(Failure::BundleInvalid(bundle_id))
            }
        }),
    decreases terminal - from,
{
    let (bundle_id, seal) = history.terminals[from];
    let bundled = history.bundled[bundle_id];
    let next = if history.bundled.contains_key(bundle_id) {
        ends.note_all(bundled, 0, bundle_id, seal)
    } else {
        Ends { report: ends.report.fail(Failure::BundleInvalid(bundle_id)), ..ends }
    };
    let last = ends.note_terminals(history, from);
    if history.bundled.contains_key(bundle_id) {
        note_all_keeps(history, ends, bundled, 0, bundle_id, seal);
    }
    note_terminals_keeps(history, next, from + 1);
    if from < terminal {
        note_terminals_notes(history, next, from + 1, terminal);
    } else if history.bundled.contains_key(bundle_id) {
        assert forall|i: int| 0 <= i < bundled.len() implies {
            let transition = #[trigger] bundled[i];
            &&& is_end(last.transitions, transition.id)
            &&& !transition.conceals(seal) ==> last.report.warnings.contains(
                Warning::TerminalSealAbsent(transition.id, seal),
            )
        } by {
            let transition = bundled[i];
            let end = choose|end: int|
                0 <= end < next.transitions.len() && (#[trigger] next.transitions[end]).0.id
                    == transition.id;
            assert(last.transitions[end] == next.transitions[end]);
            if !transition.conceals(seal) {
                let warning = Warning::TerminalSealAbsent(transition.id, seal);
                let w = next.report.warnings.index_of(warning);
                assert(last.report.warnings[w] == warning);
            }
        }
    } else {
        let f = ends.report.failures.len() as int;
        assert(next.report.failures[f] == Failure::BundleInvalid(bundle_id));
        assert(last.report.failures[f] == Failure::BundleInvalid(bundle_id));
    }
}

/// Every known transition of the bundle of a terminal is an end, and is warned of where it has
/// no assignment to the seal of the terminal. A terminal with an unknown bundle is a failure.
pub proof fn terminals_noted(history: History, terminal: int)
    requires
        0 <= terminal < history.terminals.len(),
    ensures
        ({
            let (bundle_id, seal) = history.terminals[terminal];
            if history.bundled.contains_key(bundle_id) {
                forall|i: int|
                    0 <= i < history.bundled[bundle_id].len() ==> {
                        let transition = #[trigger] history.bundled[bundle_id][i];
                        &&& is_end(history.ends().transitions, transition.id)
                        &&& !transition.conceals(seal)
                            ==> history.ends().report.warnings.contains(
                            Warning::TerminalSealAbsent(transition.id, seal),
                        )
                    }
            } else {
                history.ends().report.failures.contains(Failure::BundleInvalid(bundle_id))
            }
        }),
{
    let report = Report::empty().fail_all(bundle_failures(history.bundles, 0));
    note_terminals_notes(history, Ends { report, transitions: Seq::empty() }, 0, terminal);
}

proof fn bundle_failure_found(bundles: Seq<AnchoredBundle>, from: int, i: int)
    requires
        0 <= from <= i < bundles.len(),
        !bundles[i].bundle.consistent,
    ensures
        bundle_failures(bundles, from).contains(
            Failure::BundleInvalid(bundles[i].bundle.bundle_id),
        ),
    decreases i - from,
{
    let failure = Failure::BundleInvalid(bundles[i].bundle.bundle_id);
    let failures = bundle_failures(bundles, from);
    if from == i {
        assert(failures[0] == failure);
    } else {
        bundle_failure_found(bundles, from + 1, i);
        let rest = bundle_failures(bundles, from + 1);
        let j = rest.index_of(failure);
        if bundles[from].bundle.consistent {
            assert(failures[j] == failure);
        } else {
            assert(failures[j + 1] == failure);
        }
    }
}

/// An inconsistent bundle is a failure.
pub proof fn inconsistent_bundle_reported(history: History, i: int)
    requires
        0 <= i < history.bundles.len(),
        !history.bundles[i].bundle.consistent,
    ensures
        history.ends().report.failures.contains(
            Failure::BundleInvalid(history.bundles[i].bundle.bundle_id),
        ),
{
    let failure = Failure::BundleInvalid(history.bundles[i].bundle.bundle_id);
    let failures = bundle_failures(history.bundles, 0);
    bundle_failure_found(history.bundles, 0, i);
    ends_distinct(history);
    let j = failures.index_of(failure);
    assert(Report::empty().fail_all(failures).failures[j] == failure);
    assert(history.ends().report.failures[j] == failure);
}

proof fn bundle_found(bundles: Seq<AnchoredBundle>, id: OpId, upto: int)
    requires
        upto <= bundles.len(),
    ensures
        find_bundle(bundles, id, upto) is Some <==> exists|i: int|
            0 <= i < upto && (#[trigger] bundles[i]).bundle.reveals(id),
        find_bundle(bundles, id, upto) matches Some(anchored) ==> exists|i: int|
            {
                &&& 0 <= i < upto
                &&& (#[trigger] bundles[i]).bundle.reveals(id)
                &&& bundles[i] == anchored
                &&& forall|j: int| i < j < upto ==> !(#[trigger] bundles[j]).bundle.reveals(id)
            },
    decreases upto,
{
    if upto > 0 && !bundles[upto - 1].bundle.reveals(id) {
        bundle_found(bundles, id, upto - 1);
    } else if upto > 0 {
        assert(bundles[upto - 1].bundle.reveals(id));
    }
}

/// A transition has an anchor just where some bundle reveals it. The last such bundle is taken
/// for the bundle of the transition, and its anchor for the anchor.
pub proof fn anchored_iff_revealed(history: History, id: OpId)
    ensures
        history.anchored(id) is Some <==> exists|i: int|
            0 <= i < history.bundles.len() && (#[trigger] history.bundles[i]).bundle.reveals(id),
        history.anchored(id) matches Some(anchored) ==> exists|i: int|
            {
                &&& 0 <= i < history.bundles.len()
                &&& (#[trigger] history.bundles[i]).bundle.reveals(id)
                &&& history.bundles[i] == anchored
                &&& forall|j: int|
                    i < j < history.bundles.len() ==> !(
                    #[trigger] history.bundles[j]).bundle.reveals(id)
            },
{
    bundle_found(history.bundles, id, history.bundles.len() as int);
}

proof fn walk_reports(
    history: History,
    queue: Seq<Operation>,
    visits: nat,
    named: Option<BundleId>,
    progress: Progress,
    replies: Seq<Reply>,
    i: int,
    ancestor: Operation,
    steps: nat,
    failure: Failure,
)
    requires
        history.ends_after(queue, visits),
        0 <= i < queue.len(),
        history.descends(queue[i], ancestor, steps),
        history.defects(ancestor).contains(failure),
    ensures
        history.walk(queue, visits, named, progress, replies).report.failures.contains(
            failure,
        ),
    decreases visits,
{
    let rest = (visits - 1) as nat;
    let ahead = history.advance(queue);
    let next = history.visit(queue[0], named, progress, replies);
    if i > 0 {
        assert(ahead[i - 1] == queue[i]);
        walk_reports(
            history,
            ahead,
            rest,
            None,
            next,
            replies,
            i - 1,
            ancestor,
            steps,
            failure,
        );
    } else if steps == 0 {
        let last = history.walk(ahead, rest, None, next, replies);
        let defects = history.defects(ancestor);
        let parents = history.parent_failures(ancestor);
        walk_extends(history, ahead, rest, None, next, replies);
        let d = defects.index_of(failure);
        let f = next.report.failures.len() - defects.len() + d;
        assert(next.report.failures[f] == failure);
        assert(last.report.failures[f] == failure);
    } else {
        let parents = history.parents(queue[0]);
        let fewer = (steps - 1) as nat;
        let j = choose|j: int|
            0 <= j < parents.len() && history.descends(#[trigger] parents[j], ancestor, fewer);
        let k = queue.len() - 1 + j;
        assert(ahead[k] == parents[j]);
        walk_reports(
            history,
            ahead,
            rest,
            None,
            next,
            replies,
            k,
            ancestor,
            fewer,
            failure,
        );
    }
}

proof fn branches_report(
    history: History,
    ends: Seq<(Transition, BundleId)>,
    from: int,
    progress: Progress,
    replies: Seq<Reply>,
    end: int,
    ancestor: Operation,
    failure: Failure,
)
    requires
        0 <= from <= end < ends.len(),
        history.finite(seq![Operation::Transition(ends[end].0)]),
        history.reaches(seq![Operation::Transition(ends[end].0)], ancestor),
        history.defects(ancestor).contains(failure),
    ensures
        history.branches(ends, from, progress, replies).report.failures.contains(failure),
    decreases ends.len() - from,
{
    let transition = ends[from].0;
    let next = history.branch(transition, ends[from].1, progress, replies);
    if from < end {
        branches_report(history, ends, from + 1, next, replies, end, ancestor, failure);
    } else {
        let queue = seq![Operation::Transition(transition)];
        let visits = choose|visits: nat| history.ends_after(queue, visits);
        let named = Some(ends[from].1);
        let (i, steps) = choose|i: int, steps: nat|
            0 <= i < queue.len() && #[trigger] history.descends(queue[i], ancestor, steps);
        walk_reports(
            history,
            queue,
            visits,
            named,
            progress,
            replies,
            i,
            ancestor,
            steps,
            failure,
        );
        branches_extend(history, ends, from + 1, next, replies);
        let last = history.branches(ends, from + 1, next, replies);
        let f = next.report.failures.index_of(failure);
        assert(last.report.failures[f] == failure);
    }
}

pub(crate) proof fn unobtained_at(failures: Seq<Failure>, txid: Txid, from: int)
    ensures
        Report::find_unobtained(failures, txid, from) matches Some(pos) ==> 0 <= pos
            < failures.len() && failures[pos] == Failure::SealNoWitnessTx(txid),
        0 <= from && Report::find_unobtained(failures, txid, from) is None ==> forall|i: int|
            from <= i < failures.len() ==> #[trigger] failures[i] != Failure::SealNoWitnessTx(
                txid,
            ),
    decreases failures.len() - from,
{
    if 0 <= from < failures.len() && failures[from] != Failure::SealNoWitnessTx(txid) {
        unobtained_at(failures, txid, from + 1);
    }
}

/// Taking a transaction for not mined yet turns one failure to obtain it into a warning, and
/// leaves it in no list of transactions that could not be obtained. Where it was obtained, the
/// report stays as it is.
pub proof fn forgive_moves_one(report: Report, txid: Txid)
    ensures
        ({
            let next = report.forgive(txid);
            if report.failures.contains(Failure::SealNoWitnessTx(txid)) {
                &&& next.failures.len() == report.failures.len() - 1
                &&& next.warnings == report.warnings.push(Warning::TerminalWitnessNotMined(txid))
                &&& next.unmined_terminals == report.unmined_terminals.push(txid)
                &&& !next.unresolved_txids.contains(txid)
                &&& forall|other: Txid|
                    other != txid ==> (#[trigger] next.unresolved_txids.contains(other)
                        <==> report.unresolved_txids.contains(other))
            } else {
                next == report
            }
        }),
        forall|failure: Failure|
            #![trigger report.forgive(txid).failures.contains(failure)]
            failure != Failure::SealNoWitnessTx(txid) ==> (report.forgive(txid).failures.contains(
                failure,
            ) <==> report.failures.contains(failure)),
{
    let next = report.forgive(txid);
    unobtained_at(report.failures, txid, 0);
    if let Some(pos) = Report::find_unobtained(report.failures, txid, 0) {
        let unresolved = report.unresolved_txids;
        broadcast use vstd::seq_lib::group_filter_ensures;

        assert forall|other: Txid| other != txid implies (
        #[trigger] next.unresolved_txids.contains(other) <==> unresolved.contains(other)) by {
            if unresolved.contains(other) {
                let i = unresolved.index_of(other);
                assert(other_than(txid)(unresolved[i]));
            }
            if next.unresolved_txids.contains(other) {
                unresolved.lemma_filter_contains_rev(other_than(txid), other);
            }
        }
        assert forall|failure: Failure|
            #![trigger next.failures.contains(failure)]
            failure != Failure::SealNoWitnessTx(txid) implies (next.failures.contains(failure)
            <==> report.failures.contains(failure)) by {
            if report.failures.contains(failure) {
                let i = report.failures.index_of(failure);
                if i < pos {
                    assert(next.failures[i] == failure);
                } else {
                    assert(next.failures[i - 1] == failure);
                }
            }
            if next.failures.contains(failure) {
                let i = next.failures.index_of(failure);
                if i < pos {
                    assert(report.failures[i] == failure);
                } else {
                    assert(report.failures[i + 1] == failure);
                }
            }
        }
    }
}

/// Forgiving the ends takes away no failures but those to obtain transactions, no warnings, and
/// leaves as many failures less as there are unmined terminals more.
pub proof fn forgiving_keeps(
    history: History,
    ends: Seq<(Transition, BundleId)>,
    from: int,
    report: Report,
)
    ensures
        ({
            let last = history.forgive(ends, from, report);
            &&& report.warnings.is_prefix_of(last.warnings)
            &&& report.unmined_terminals.is_prefix_of(last.unmined_terminals)
            &&& report.failures.len() + report.unmined_terminals.len() == last.failures.len()
                + last.unmined_terminals.len()
            &&& forall|failure: Failure| #[trigger]
                report.failures.contains(failure) && !(failure is SealNoWitnessTx)
                    ==> last.failures.contains(failure)
            &&& forall|txid: Txid| #[trigger]
                last.unresolved_txids.contains(txid) ==> report.unresolved_txids.contains(txid)
            &&& forall|i: int|
                report.unmined_terminals.len() <= i < last.unmined_terminals.len()
                    ==> !last.unresolved_txids.contains(#[trigger] last.unmined_terminals[i])
        }),
    decreases ends.len() - from,
{
    if 0 <= from < ends.len() {
        let last = history.forgive(ends, from, report);
        match history.anchor(ends[from].0.id) {
            Some(anchor) => {
                let txid = anchor.parts().txid;
                let next = report.forgive(txid);
                forgive_moves_one(report, txid);
                forgiving_keeps(history, ends, from + 1, next);
                assert forall|failure: Failure| #[trigger]
                    report.failures.contains(failure) && !(failure is SealNoWitnessTx) implies
                    last.failures.contains(failure) by {
                    assert(next.failures.contains(failure));
                }
                assert forall|other: Txid| #[trigger]
                    last.unresolved_txids.contains(other) implies
                    report.unresolved_txids.contains(other) by {
                    assert(next.unresolved_txids.contains(other));
                }
                assert forall|i: int|
                    report.unmined_terminals.len() <= i < last.unmined_terminals.len() implies
                    !last.unresolved_txids.contains(#[trigger] last.unmined_terminals[i]) by {
                    if i < next.unmined_terminals.len() {
                        assert(last.unmined_terminals[i] == next.unmined_terminals[i]);
                        assert(next.unmined_terminals[i] == txid);
                        if last.unresolved_txids.contains(txid) {
                            assert(next.unresolved_txids.contains(txid));
                        }
                    }
                }
            },
            None => {
                forgiving_keeps(history, ends, from + 1, report);
            },
        }
    }
}

/// What is wrong with an end or with an ancestor of one is in the report: references to unknown
/// operations, valencies that are not there, and the lack of an anchor. So are the failures of
/// the bundles and of the terminals, those of the schema and those of the genesis against it, as
/// far as they are no failures to obtain transactions.
pub proof fn defects_reported(
    history: History,
    replies: Seq<Reply>,
    ancestor: Operation,
    failure: Failure,
)
    requires
        history.goes_on(),
        ancestry_finite(history),
        !(failure is SealNoWitnessTx),
        history.ancestral(ancestor) && history.defects(ancestor).contains(failure)
            || history.found(history.started()).report.failures.contains(failure),
    ensures
        history.validation(replies).report.failures.contains(failure),
{
    let ends = history.ends().transitions;
    let founded = history.found(history.started());
    let visited = history.branches(ends, 0, founded, replies);
    if founded.report.failures.contains(failure) {
        branches_extend(history, ends, 0, founded, replies);
        let f = founded.report.failures.index_of(failure);
        assert(visited.report.failures[f] == failure);
    } else {
        let end = choose|end: int|
            0 <= end < ends.len() && history.reaches(
                seq![Operation::Transition((#[trigger] ends[end]).0)],
                ancestor,
            );
        branches_report(history, ends, 0, founded, replies, end, ancestor, failure);
    }
    assert(visited.report.failures.contains(failure));
    forgiving_keeps(history, ends, 0, visited.report);
    let forgiven = history.forgive(ends, 0, visited.report);
    assert(history.validation(replies).report.failures == forgiven.failures);
}

/// What is warned of the terminals stays in the report to the end.
pub proof fn terminal_warnings_kept(history: History, replies: Seq<Reply>)
    ensures
        history.ends().report.warnings.is_prefix_of(
            history.validation(replies).report.warnings,
        ),
{
    let ends = history.ends().transitions;
    let founded = history.found(history.started());
    let visited = history.branches(ends, 0, founded, replies);
    branches_extend(history, ends, 0, founded, replies);
    forgiving_keeps(history, ends, 0, visited.report);
    let noted = history.ends().report.warnings;
    let forgiven = history.forgive(ends, 0, visited.report).warnings;
    assert(noted.is_prefix_of(history.started().report.warnings));
    assert(noted.is_prefix_of(founded.report.warnings));
    assert(noted.is_prefix_of(visited.report.warnings));
    assert(noted.is_prefix_of(forgiven));
    if history.goes_on() {
        assert(forgiven.is_prefix_of(history.validation(replies).report.warnings));
    }
}

/// A transition the anchor of which makes no commitment under the contract is reported for it,
/// and where its witness transaction is given, so are the multi-protocol proof and the anchor.
pub proof fn uncommitted_reported(
    history: History,
    transition: Transition,
    named: Option<BundleId>,
    progress: Progress,
    replies: Seq<Reply>,
)
    requires
        history.anchored(transition.id) matches Some(anchored) && !anchored.anchor.serves(
            history.genesis.contract_id,
        ),
        !progress.anchored.contains(transition.id),
    ensures
        ({
            let anchor = history.anchored(transition.id)->Some_0.anchor;
            let txid = anchor.parts().txid;
            let next = history.check_anchor(transition, named, progress, replies);
            let err = anchor.misplaced(history.genesis.contract_id);
            &&& next.report.failures.contains(Failure::NotInAnchor(transition.id, txid))
            &&& replies[progress.asked.len() as int] is Ok ==> next.report.failures.contains(
                Failure::MpcInvalid(transition.id, txid),
            ) && next.report.failures.contains(
                Failure::AnchorInvalid(
                    transition.id,
                    txid,
                    AnchorError::Lnpbp4InvalidProof(err),
                ),
            )
        }),
{
    let anchored = history.anchored(transition.id)->Some_0;
    let anchor = anchored.anchor;
    let bundle_id = match named {
        Some(bundle_id) => bundle_id,
        None => anchored.bundle.bundle_id,
    };
    let txid = anchor.parts().txid;
    let next = history.check_anchor(transition, named, progress, replies);
    let failures = next.report.failures;
    let f = progress.report.failures.len() as int;
    assert(failures[f] == Failure::NotInAnchor(transition.id, txid));
    if let Ok(tx) = replies[progress.asked.len() as int] {
        let inputs = history.input_failures(transition.id, transition.inputs@, 0);
        let err = AnchorError::Lnpbp4InvalidProof(
            anchor.misplaced(history.genesis.contract_id),
        );
        let report = history.transition_report(transition, bundle_id, anchor, Ok(tx));
        let witness = history.witness_failures(transition, bundle_id, anchor, tx@);
        assert(report.failures =~= witness);
        let m = f + 1 + inputs.len();
        assert(failures[m] == Failure::MpcInvalid(transition.id, txid));
        assert(failures[m + 1] == Failure::AnchorInvalid(transition.id, txid, err));
    }
}

} // verus!
