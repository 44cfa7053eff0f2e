//! How one validation compares with another.
use crate::contract::{History, Operation, Transition};
use crate::ids::{BundleId, SecretSeal, Txid};
use crate::validation::laws::{
    branches_extend, questions_fixed, reaches_from_ahead, walk_anchors, walk_extends,
    walk_validates,
};
use crate::validation::model::{bundle_failures, Ends, Progress, Reply};
use crate::validation::resolver::ResolveTx;
use crate::validation::status::{Failure, Report};
use crate::validation::validator::replies_of;
use vstd::prelude::*;

verus! {

/// Whether two replies come to the same: both give the same transaction, or none gives any.
pub open spec fn alike(reply: Reply, other: Reply) -> bool {
    match (reply, other) {
        (Ok(tx), Ok(other_tx)) => tx@ == other_tx@,
        (Err(_), Err(_)) => true,
        _ => false,
    }
}

proof fn visit_alike(
    history: History,
    operation: Operation,
    named: Option<BundleId>,
    progress: Progress,
    replies: Seq<Reply>,
    other_replies: Seq<Reply>,
)
    requires
        progress.asked.len() < history.visit(
            operation,
            named,
            progress,
            replies,
        ).asked.len() ==> alike(
            replies[progress.asked.len() as int],
            other_replies[progress.asked.len() as int],
        ),
    ensures
        history.visit(operation, named, progress, replies) == history.visit(
            operation,
            named,
            progress,
            other_replies,
        ),
{
}

proof fn walk_alike(
    history: History,
    queue: Seq<Operation>,
    visits: nat,
    named: Option<BundleId>,
    progress: Progress,
    replies: Seq<Reply>,
    other_replies: Seq<Reply>,
)
    requires
        forall|i: int|
            progress.asked.len() <= i < history.walk(
                queue,
                visits,
                named,
                progress,
                replies,
            ).asked.len() ==> alike(#[trigger] replies[i], other_replies[i]),
    ensures
        history.walk(queue, visits, named, progress, replies) == history.walk(
            queue,
            visits,
            named,
            progress,
            other_replies,
        ),
    decreases visits,
{
    if visits > 0 && queue.len() > 0 {
        let rest = (visits - 1) as nat;
        let ahead = history.advance(queue);
        let next = history.visit(queue[0], named, progress, replies);
        walk_extends(history, ahead, rest, None, next, replies);
        visit_alike(history, queue[0], named, progress, replies, other_replies);
        walk_alike(history, ahead, rest, None, next, replies, other_replies);
    }
}

proof fn branches_alike(
    history: History,
    ends: Seq<(Transition, BundleId)>,
    from: int,
    progress: Progress,
    replies: Seq<Reply>,
    other_replies: Seq<Reply>,
)
    requires
        forall|i: int|
            progress.asked.len() <= i < history.branches(
                ends,
                from,
                progress,
                replies,
            ).asked.len() ==> alike(#[trigger] replies[i], other_replies[i]),
    ensures
        history.branches(ends, from, progress, replies) == history.branches(
            ends,
            from,
            progress,
            other_replies,
        ),
    decreases ends.len() - from,
{
    if 0 <= from < ends.len() {
        let transition = ends[from].0;
        let queue = seq![Operation::Transition(transition)];
        let visits = choose|visits: nat| history.ends_after(queue, visits);
        let named = Some(ends[from].1);
        let next = history.branch(transition, ends[from].1, progress, replies);
        branches_extend(history, ends, from + 1, next, replies);
        walk_extends(history, queue, visits, named, progress, replies);
        walk_alike(history, queue, visits, named, progress, replies, other_replies);
        branches_alike(history, ends, from + 1, next, replies, other_replies);
    }
}

/// Of a reply without a transaction it does not matter why there is none: where replies come to
/// the same one by one, so do the reports.
pub proof fn replies_alike(history: History, replies: Seq<Reply>, other_replies: Seq<Reply>)
    requires
        forall|i: int|
            0 <= i < history.validation(replies).asked.len() ==> alike(
                #[trigger] replies[i],
                other_replies[i],
            ),
    ensures
        history.validation(replies) == history.validation(other_replies),
{
    let ends = history.ends().transitions;
    let founded = history.found(history.started());
    if history.goes_on() {
        branches_alike(history, ends, 0, founded, replies, other_replies);
    }
}

/// Two resolvers that give the same transactions, and fail on the same ones in whatever way, lead
/// to equal reports. With one resolver that replies the same to a question each time, there is
/// one report that validation can make.
pub proof fn resolvers_agree<R: ResolveTx, S: ResolveTx>(
    history: History,
    resolver: R,
    other: S,
    replies: Seq<Reply>,
    other_replies: Seq<Reply>,
)
    requires
        forall|txid: Txid, reply: Reply, other_reply: Reply| #[trigger]
            resolver.may_reply(txid, reply) && #[trigger] other.may_reply(txid, other_reply)
                ==> alike(reply, other_reply),
        replies_of(resolver, history.validation(replies).asked, replies),
        replies_of(other, history.validation(other_replies).asked, other_replies),
    ensures
        history.validation(replies) == history.validation(other_replies),
{
    let asked = history.validation(replies).asked;
    questions_fixed(history, replies, other_replies);
    assert forall|i: int| 0 <= i < asked.len() implies alike(
        #[trigger] replies[i],
        other_replies[i],
    ) by {
        assert(resolver.may_reply(asked[i], replies[i]));
        assert(other.may_reply(asked[i], other_replies[i]));
    }
    replies_alike(history, replies, other_replies);
}

impl History {
    /// Whether an operation has nothing wrong in what it refers to, and was checked against the
    /// schema and, as a transition, against its anchor.
    pub open spec fn settled(self, operation: Operation, progress: Progress) -> bool {
        &&& self.defects(operation).len() == 0
        &&& progress.validated.contains(operation.id())
        &&& operation is Transition ==> progress.anchored.contains(operation.id())
    }

    /// Whether a transition and its ancestors have nothing wrong in what they refer to.
    pub open spec fn flawless(self, transition: Transition) -> bool {
        forall|ancestor: Operation| #[trigger]
            self.reaches(seq![Operation::Transition(transition)], ancestor) ==> self.defects(
                ancestor,
            ).len() == 0
    }

    /// Whether a transition and its ancestors are settled.
    pub open spec fn branch_settled(self, transition: Transition, progress: Progress) -> bool {
        forall|ancestor: Operation| #[trigger]
            self.reaches(seq![Operation::Transition(transition)], ancestor) ==> self.settled(
                ancestor,
                progress,
            )
    }
}

proof fn settled_visit(
    history: History,
    operation: Operation,
    named: Option<BundleId>,
    progress: Progress,
    replies: Seq<Reply>,
)
    requires
        history.settled(operation, progress),
    ensures
        history.visit(operation, named, progress, replies) == progress,
{
    assert(history.parent_failures(operation).len() == 0);
    assert(progress.fail_all(history.parent_failures(operation)) =~= progress);
}

proof fn settled_walk(
    history: History,
    queue: Seq<Operation>,
    visits: nat,
    named: Option<BundleId>,
    progress: Progress,
    replies: Seq<Reply>,
)
    requires
        forall|ancestor: Operation| #[trigger]
            history.reaches(queue, ancestor) ==> history.settled(ancestor, progress),
    ensures
        history.walk(queue, visits, named, progress, replies) == progress,
    decreases visits,
{
    if visits > 0 && queue.len() > 0 {
        let ahead = history.advance(queue);
        assert(history.descends(queue[0], queue[0], 0));
        assert(history.reaches(queue, queue[0]));
        settled_visit(history, queue[0], named, progress, replies);
        assert forall|ancestor: Operation| #[trigger]
            history.reaches(ahead, ancestor) implies history.settled(ancestor, progress) by {
            reaches_from_ahead(history, queue, ancestor);
        }
        settled_walk(history, ahead, (visits - 1) as nat, None, progress, replies);
    }
}

/// A run over a transition and its ancestors, where nothing is wrong with what they refer to,
/// leaves them settled.
pub proof fn run_settles(
    history: History,
    transition: Transition,
    bundle_id: BundleId,
    progress: Progress,
    replies: Seq<Reply>,
)
    requires
        history.finite(seq![Operation::Transition(transition)]),
        history.flawless(transition),
    ensures
        history.branch_settled(
            transition,
            history.branch(transition, bundle_id, progress, replies),
        ),
{
    let queue = seq![Operation::Transition(transition)];
    let visits = choose|visits: nat| history.ends_after(queue, visits);
    let named = Some(bundle_id);
    let last = history.branch(transition, bundle_id, progress, replies);
    assert forall|ancestor: Operation| #[trigger]
        history.reaches(queue, ancestor) implies history.settled(ancestor, last) by {
        let (i, steps) = choose|i: int, steps: nat|
            0 <= i < queue.len() && #[trigger] history.descends(queue[i], ancestor, steps);
        walk_validates(history, queue, visits, named, progress, replies, i, ancestor, steps);
        if let Operation::Transition(reached) = ancestor {
            walk_anchors(history, queue, visits, named, progress, replies, i, reached, steps);
        }
    }
}

/// A run over a transition and its ancestors, where they are settled, changes nothing, checks
/// nothing against the schema and asks for nothing.
pub proof fn settled_run_idle(
    history: History,
    transition: Transition,
    bundle_id: BundleId,
    progress: Progress,
    replies: Seq<Reply>,
)
    requires
        history.branch_settled(transition, progress),
    ensures
        history.branch(transition, bundle_id, progress, replies) == progress,
{
    let queue = seq![Operation::Transition(transition)];
    let visits = choose|visits: nat| history.ends_after(queue, visits);
    settled_walk(history, queue, visits, Some(bundle_id), progress, replies);
}

/// A second run over a transition and its ancestors, where nothing is wrong with what they refer
/// to, changes nothing, checks nothing against the schema and asks for nothing.
pub proof fn second_run_idle(
    history: History,
    transition: Transition,
    bundle_id: BundleId,
    progress: Progress,
    replies: Seq<Reply>,
    later_replies: Seq<Reply>,
)
    requires
        history.finite(seq![Operation::Transition(transition)]),
        history.flawless(transition),
    ensures
        ({
            let first = history.branch(transition, bundle_id, progress, replies);
            history.branch(transition, bundle_id, first, later_replies) == first
        }),
{
    let first = history.branch(transition, bundle_id, progress, replies);
    run_settles(history, transition, bundle_id, progress, replies);
    settled_run_idle(history, transition, bundle_id, first, later_replies);
}

impl Ends {
    /// The ends with one failure more, at an index.
    pub open spec fn one_more(self, pos: int, failure: Failure) -> Ends {
        Ends {
            report: Report { failures: self.report.failures.insert(pos, failure), ..self.report },
            ..self
        }
    }
}

impl History {
    /// The history with one terminal more, at an index.
    pub open spec fn with_terminal(
        self,
        at: int,
        bundle_id: BundleId,
        seal: SecretSeal,
    ) -> History {
        History { terminals: self.terminals.insert(at, (bundle_id, seal)), ..self }
    }
}

proof fn one_more_through_all(
    ends: Ends,
    pos: int,
    failure: Failure,
    transitions: Seq<Transition>,
    from: int,
    bundle_id: BundleId,
    seal: SecretSeal,
)
    ensures
        ends.one_more(pos, failure).note_all(transitions, from, bundle_id, seal) == ends.note_all(
            transitions,
            from,
            bundle_id,
            seal,
        ).one_more(pos, failure),
        ends.note_all(transitions, from, bundle_id, seal).report.failures == ends.report.failures,
    decreases transitions.len() - from,
{
    if 0 <= from < transitions.len() {
        let next = ends.note(transitions[from], bundle_id, seal);
        one_more_through_all(next, pos, failure, transitions, from + 1, bundle_id, seal);
    }
}

proof fn one_more_through(history: History, ends: Ends, pos: int, failure: Failure, from: int)
    requires
        0 <= pos <= ends.report.failures.len(),
    ensures
        ends.one_more(pos, failure).note_terminals(history, from) == ends.note_terminals(
            history,
            from,
        ).one_more(pos, failure),
        ends.report.failures.len() <= ends.note_terminals(history, from).report.failures.len(),
    decreases history.terminals.len() - from,
{
    if 0 <= from < history.terminals.len() {
        let (bundle_id, seal) = history.terminals[from];
        if history.bundled.contains_key(bundle_id) {
            let bundled = history.bundled[bundle_id];
            one_more_through_all(ends, pos, failure, bundled, 0, bundle_id, seal);
            let next = ends.note_all(bundled, 0, bundle_id, seal);
            one_more_through(history, next, pos, failure, from + 1);
        } else {
            let invalid = Failure::BundleInvalid(bundle_id);
            let next = Ends { report: ends.report.fail(invalid), ..ends };
            let more = ends.one_more(pos, failure);
            assert(Ends { report: more.report.fail(invalid), ..more } =~= next.one_more(
                pos,
                failure,
            ));
            one_more_through(history, next, pos, failure, from + 1);
        }
    }
}

proof fn terminals_behind(
    history: History,
    at: int,
    bundle_id: BundleId,
    seal: SecretSeal,
    ends: Ends,
    from: int,
)
    requires
        0 <= at <= from,
        at <= history.terminals.len(),
    ensures
        ends.note_terminals(history.with_terminal(at, bundle_id, seal), from + 1)
            == ends.note_terminals(history, from),
    decreases history.terminals.len() - from,
{
    if from < history.terminals.len() {
        let more = history.with_terminal(at, bundle_id, seal);
        assert(more.terminals[from + 1] == history.terminals[from]);
        let (other_id, other_seal) = history.terminals[from];
        let next = if history.bundled.contains_key(other_id) {
            ends.note_all(history.bundled[other_id], 0, other_id, other_seal)
        } else {
            Ends { report: ends.report.fail(Failure::BundleInvalid(other_id)), ..ends }
        };
        terminals_behind(history, at, bundle_id, seal, next, from + 1);
    }
}

proof fn terminals_around(
    history: History,
    at: int,
    bundle_id: BundleId,
    seal: SecretSeal,
    ends: Ends,
    from: int,
) -> (pos: int)
    requires
        0 <= from <= at <= history.terminals.len(),
        !history.bundled.contains_key(bundle_id),
    ensures
        0 <= pos <= ends.note_terminals(history, from).report.failures.len(),
        ends.note_terminals(history.with_terminal(at, bundle_id, seal), from)
            == ends.note_terminals(history, from).one_more(pos, Failure::BundleInvalid(bundle_id)),
    decreases at - from,
{
    let more = history.with_terminal(at, bundle_id, seal);
    if from < at {
        assert(more.terminals[from] == history.terminals[from]);
        let (other_id, other_seal) = history.terminals[from];
        let next = if history.bundled.contains_key(other_id) {
            ends.note_all(history.bundled[other_id], 0, other_id, other_seal)
        } else {
            Ends { report: ends.report.fail(Failure::BundleInvalid(other_id)), ..ends }
        };
        terminals_around(history, at, bundle_id, seal, next, from + 1)
    } else {
        let failure = Failure::BundleInvalid(bundle_id);
        let pos = ends.report.failures.len() as int;
        assert(more.terminals[from] == (bundle_id, seal));
        let next = Ends { report: ends.report.fail(failure), ..ends };
        assert(next =~= ends.one_more(pos, failure));
        terminals_behind(history, at, bundle_id, seal, next, from);
        one_more_through(history, ends, pos, failure, from);
        pos
    }
}

/// One more terminal, of an unknown bundle, is one failure more. It changes no warning, no end and
/// no anchor: the terminals before it and behind it are gone through as without it.
pub proof fn unknown_terminal_is_one_failure(
    history: History,
    at: int,
    bundle_id: BundleId,
    seal: SecretSeal,
)
    requires
        0 <= at <= history.terminals.len(),
        !history.bundled.contains_key(bundle_id),
    ensures
        exists|pos: int|
            0 <= pos <= history.ends().report.failures.len() && history.with_terminal(
                at,
                bundle_id,
                seal,
            ).ends() == #[trigger] history.ends().one_more(pos, Failure::BundleInvalid(bundle_id)),
        forall|id|
            #[trigger] history.with_terminal(at, bundle_id, seal).anchored(id) == history.anchored(
                id,
            ),
{
    let report = Report::empty().fail_all(bundle_failures(history.bundles, 0));
    let ends = Ends { report, transitions: Seq::empty() };
    let pos = terminals_around(history, at, bundle_id, seal, ends, 0);
    assert(history.with_terminal(at, bundle_id, seal).ends() == history.ends().one_more(
        pos,
        Failure::BundleInvalid(bundle_id),
    ));
}

} // verus!
