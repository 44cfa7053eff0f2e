//! What holds of validation as a whole.
use crate::contract::{outside, History, Operation, Transition};
use crate::ids::{BundleId, OpId, Txid};
use crate::validation::model::{Progress, Reply};
use crate::validation::status::{Failure, Report, Validity, Warning};
use crate::validation::validator::ancestry_finite;
use vstd::prelude::*;

verus! {

impl Report {
    /// Whether a report holds another, with more behind it.
    pub open spec fn extends(self, earlier: Report) -> bool {
        &&& earlier.failures.is_prefix_of(self.failures)
        &&& earlier.warnings.is_prefix_of(self.warnings)
        &&& earlier.unresolved_txids.is_prefix_of(self.unresolved_txids)
        &&& earlier.unmined_terminals.is_prefix_of(self.unmined_terminals)
    }
}

impl Progress {
    /// Whether a state of validation holds all that an earlier one did.
    pub open spec fn extends(self, earlier: Progress) -> bool {
        &&& self.report.extends(earlier.report)
        &&& earlier.validated.subset_of(self.validated)
        &&& earlier.anchored.subset_of(self.anchored)
        &&& earlier.asked.is_prefix_of(self.asked)
    }
}

impl History {
    /// Whether an operation is another one (in no steps), or builds upon it over some steps.
    pub open spec fn descends(self, operation: Operation, ancestor: Operation, steps: nat) -> bool
        decreases steps,
    {
        if steps == 0 {
            operation == ancestor
        } else {
            exists|i: int|
                0 <= i < self.parents(operation).len() && self.descends(
                    #[trigger] self.parents(operation)[i],
                    ancestor,
                    (steps - 1) as nat,
                )
        }
    }

    /// Whether an operation is one of some others, or an ancestor of one.
    pub open spec fn reaches(self, queue: Seq<Operation>, ancestor: Operation) -> bool {
        exists|i: int, steps: nat|
            0 <= i < queue.len() && #[trigger] self.descends(queue[i], ancestor, steps)
    }

    /// Whether an operation is an end of the history, or an ancestor of one.
    pub open spec fn ancestral(self, ancestor: Operation) -> bool {
        exists|end: int|
            0 <= end < self.ends().transitions.len() && self.reaches(
                seq![Operation::Transition((#[trigger] self.ends().transitions[end]).0)],
                ancestor,
            )
    }
}

proof fn descends_further(
    history: History,
    operation: Operation,
    ancestor: Operation,
    steps: nat,
    i: int,
)
    requires
        history.descends(operation, ancestor, steps),
        0 <= i < history.parents(ancestor).len(),
    ensures
        history.descends(operation, history.parents(ancestor)[i], steps + 1),
    decreases steps,
{
    let further = history.parents(ancestor)[i];
    let parents = history.parents(operation);
    if steps == 0 {
        assert(history.descends(parents[i], further, 0));
    } else {
        let fewer = (steps - 1) as nat;
        let j = choose|j: int|
            0 <= j < parents.len() && history.descends(#[trigger] parents[j], ancestor, fewer);
        descends_further(history, parents[j], ancestor, fewer, i);
        assert(history.descends(parents[j], further, steps));
    }
}

/// What an end or an ancestor of one builds upon is an ancestor, too.
pub(crate) proof fn parents_ancestral(history: History, operation: Operation)
    requires
        history.ancestral(operation),
    ensures
        forall|i: int|
            0 <= i < history.parents(operation).len() ==> history.ancestral(
                #[trigger] history.parents(operation)[i],
            ),
{
    let ends = history.ends().transitions;
    let end = choose|end: int|
        0 <= end < ends.len() && history.reaches(
            seq![Operation::Transition((#[trigger] ends[end]).0)],
            operation,
        );
    let queue = seq![Operation::Transition(ends[end].0)];
    let (k, steps) = choose|k: int, steps: nat|
        0 <= k < queue.len() && #[trigger] history.descends(queue[k], operation, steps);
    assert forall|i: int| 0 <= i < history.parents(operation).len() implies history.ancestral(
        #[trigger] history.parents(operation)[i],
    ) by {
        descends_further(history, queue[k], operation, steps, i);
        assert(history.reaches(queue, history.parents(operation)[i]));
    }
}

/// An end of the history counts among its own ancestors.
pub(crate) proof fn ends_ancestral(history: History, end: int)
    requires
        0 <= end < history.ends().transitions.len(),
    ensures
        history.ancestral(Operation::Transition(history.ends().transitions[end].0)),
{
    let operation = Operation::Transition(history.ends().transitions[end].0);
    assert(history.descends(seq![operation][0], operation, 0));
    assert(history.reaches(seq![operation], operation));
}

/// Visiting an operation takes nothing back of what was found before it.
pub proof fn visit_extends(
    history: History,
    operation: Operation,
    named: Option<BundleId>,
    progress: Progress,
    replies: Seq<Reply>,
)
    ensures
        history.visit(operation, named, progress, replies).extends(progress),
{
    let checked = history.check_schema(operation, progress);
    assert(checked.extends(progress));
    if let Operation::Transition(transition) = operation {
        anchor_check_extends(history, transition, named, checked, replies);
    }
}

proof fn anchor_check_extends(
    history: History,
    transition: Transition,
    named: Option<BundleId>,
    progress: Progress,
    replies: Seq<Reply>,
)
    ensures
        history.check_anchor(transition, named, progress, replies).extends(progress),
{
}

pub(crate) proof fn walk_extends(
    history: History,
    queue: Seq<Operation>,
    visits: nat,
    named: Option<BundleId>,
    progress: Progress,
    replies: Seq<Reply>,
)
    ensures
        history.walk(queue, visits, named, progress, replies).extends(progress),
    decreases visits,
{
    if visits > 0 && queue.len() > 0 {
        let next = history.visit(queue[0], named, progress, replies);
        visit_extends(history, queue[0], named, progress, replies);
        walk_extends(
            history,
            history.advance(queue),
            (visits - 1) as nat,
            None,
            next,
            replies,
        );
    }
}

/// Validating the ends of a history takes nothing back of what was found before: a failure does
/// not stop validation, and stays in the report, with what is found behind it.
pub proof fn branches_extend(
    history: History,
    ends: Seq<(Transition, BundleId)>,
    from: int,
    progress: Progress,
    replies: Seq<Reply>,
)
    ensures
        history.branches(ends, from, progress, replies).extends(progress),
    decreases ends.len() - from,
{
    if 0 <= from < ends.len() {
        let transition = ends[from].0;
        let queue = seq![Operation::Transition(transition)];
        let visits = choose|visits: nat| history.ends_after(queue, visits);
        let named = Some(ends[from].1);
        let next = history.branch(transition, ends[from].1, progress, replies);
        walk_extends(history, queue, visits, named, progress, replies);
        branches_extend(history, ends, from + 1, next, replies);
    }
}

pub(crate) proof fn walk_validates(
    history: History,
    queue: Seq<Operation>,
    visits: nat,
    named: Option<BundleId>,
    progress: Progress,
    replies: Seq<Reply>,
    i: int,
    ancestor: Operation,
    steps: nat,
)
    requires
        history.ends_after(queue, visits),
        0 <= i < queue.len(),
        history.descends(queue[i], ancestor, steps),
    ensures
        history.walk(queue, visits, named, progress, replies).validated.contains(
            ancestor.id(),
        ),
    decreases visits,
{
    let rest = (visits - 1) as nat;
    let ahead = history.advance(queue);
    let next = history.visit(queue[0], named, progress, replies);
    if i > 0 {
        assert(ahead[i - 1] == queue[i]);
        walk_validates(history, ahead, rest, None, next, replies, i - 1, ancestor, steps);
    } else if steps == 0 {
        walk_extends(history, ahead, rest, None, next, replies);
    } else {
        let parents = history.parents(queue[0]);
        let j = choose|j: int|
            0 <= j < parents.len() && history.descends(
                #[trigger] parents[j],
                ancestor,
                (steps - 1) as nat,
            );
        let k = queue.len() - 1 + j;
        assert(ahead[k] == parents[j]);
        walk_validates(
            history,
            ahead,
            rest,
            None,
            next,
            replies,
            k,
            ancestor,
            (steps - 1) as nat,
        );
    }
}

/// An ancestor of what is still to visit is one of what was to visit before.
pub(crate) proof fn reaches_from_ahead(history: History, queue: Seq<Operation>, ancestor: Operation)
    requires
        queue.len() > 0,
        history.reaches(history.advance(queue), ancestor),
    ensures
        history.reaches(queue, ancestor),
{
    let ahead = history.advance(queue);
    let (i, steps) = choose|i: int, steps: nat|
        0 <= i < ahead.len() && #[trigger] history.descends(ahead[i], ancestor, steps);
    if i < queue.len() - 1 {
        assert(ahead[i] == queue[i + 1]);
        assert(history.descends(queue[i + 1], ancestor, steps));
    } else {
        let j = i - (queue.len() - 1);
        assert(ahead[i] == history.parents(queue[0])[j]);
        assert(history.descends(queue[0], ancestor, steps + 1));
    }
}

proof fn walk_validates_only(
    history: History,
    queue: Seq<Operation>,
    visits: nat,
    named: Option<BundleId>,
    progress: Progress,
    replies: Seq<Reply>,
    id: OpId,
)
    requires
        history.walk(queue, visits, named, progress, replies).validated.contains(id),
        !progress.validated.contains(id),
    ensures
        exists|ancestor: Operation| #[trigger]
            history.reaches(queue, ancestor) && ancestor.id() == id,
    decreases visits,
{
    if visits > 0 && queue.len() > 0 {
        let rest = (visits - 1) as nat;
        let ahead = history.advance(queue);
        let next = history.visit(queue[0], named, progress, replies);
        if next.validated.contains(id) {
            assert(history.descends(queue[0], queue[0], 0));
            assert(history.reaches(queue, queue[0]));
        } else {
            walk_validates_only(history, ahead, rest, None, next, replies, id);
            let ancestor = choose|ancestor: Operation| #[trigger]
                history.reaches(ahead, ancestor) && ancestor.id() == id;
            reaches_from_ahead(history, queue, ancestor);
        }
    }
}

/// Every ancestor of an end is validated, up to the genesis.
pub proof fn branches_validate(
    history: History,
    ends: Seq<(Transition, BundleId)>,
    from: int,
    progress: Progress,
    replies: Seq<Reply>,
    end: int,
    ancestor: Operation,
)
    requires
        0 <= from <= end < ends.len(),
        history.finite(seq![Operation::Transition(ends[end].0)]),
        history.reaches(seq![Operation::Transition(ends[end].0)], ancestor),
    ensures
        history.branches(ends, from, progress, replies).validated.contains(ancestor.id()),
    decreases ends.len() - from,
{
    let transition = ends[from].0;
    let next = history.branch(transition, ends[from].1, progress, replies);
    if from < end {
        branches_validate(history, ends, from + 1, next, replies, end, ancestor);
    } else {
        let queue = seq![Operation::Transition(transition)];
        let visits = choose|visits: nat| history.ends_after(queue, visits);
        let named = Some(ends[from].1);
        let (i, steps) = choose|i: int, steps: nat|
            0 <= i < queue.len() && #[trigger] history.descends(queue[i], ancestor, steps);
        walk_validates(
            history,
            queue,
            visits,
            named,
            progress,
            replies,
            i,
            ancestor,
            steps,
        );
        branches_extend(history, ends, from + 1, next, replies);
    }
}

/// Nothing but ends and their ancestors is validated.
pub proof fn branches_validate_only(
    history: History,
    ends: Seq<(Transition, BundleId)>,
    from: int,
    progress: Progress,
    replies: Seq<Reply>,
    id: OpId,
)
    requires
        0 <= from,
        history.branches(ends, from, progress, replies).validated.contains(id),
        !progress.validated.contains(id),
    ensures
        exists|end: int, ancestor: Operation|
            from <= end < ends.len() && ancestor.id() == id && #[trigger] history.reaches(
                seq![Operation::Transition(ends[end].0)],
                ancestor,
            ),
    decreases ends.len() - from,
{
    if from < ends.len() {
        let transition = ends[from].0;
        let next = history.branch(transition, ends[from].1, progress, replies);
        if next.validated.contains(id) {
            let queue = seq![Operation::Transition(transition)];
            let visits = choose|visits: nat| history.ends_after(queue, visits);
            let named = Some(ends[from].1);
            walk_validates_only(history, queue, visits, named, progress, replies, id);
            let ancestor = choose|ancestor: Operation| #[trigger]
                history.reaches(queue, ancestor) && ancestor.id() == id;
            assert(history.reaches(seq![Operation::Transition(ends[from].0)], ancestor));
        } else {
            branches_validate_only(history, ends, from + 1, next, replies, id);
        }
    }
}

impl Progress {
    /// Whether two states of validation differ in nothing but the report.
    pub open spec fn abreast(self, other: Progress) -> bool {
        &&& self.validated == other.validated
        &&& self.anchored == other.anchored
        &&& self.asked == other.asked
    }

    /// Whether the resolver was asked once for each transition that was checked against its
    /// anchor, and for the transaction of that anchor.
    pub open spec fn asked_once(self, history: History) -> bool {
        &&& self.anchored.finite()
        &&& self.asked.len() == self.anchored.len()
        &&& forall|i: int| 0 <= i < self.asked.len() ==> self.anchored_in(history, self.asked[i])
        &&& forall|id: OpId| #[trigger]
            self.anchored.contains(id) ==> self.validated.contains(id) && history.anchor(id) is Some
    }

    /// Whether a transaction is that of the anchor of a transition that was checked.
    pub open spec fn anchored_in(self, history: History, txid: Txid) -> bool {
        exists|id: OpId| #[trigger]
            self.anchored.contains(id) && (history.anchor(id) matches Some(anchor)
                && anchor.parts().txid == txid)
    }
}

proof fn walk_abreast(
    history: History,
    queue: Seq<Operation>,
    visits: nat,
    named: Option<BundleId>,
    progress: Progress,
    replies: Seq<Reply>,
    other_progress: Progress,
    other_replies: Seq<Reply>,
)
    requires
        progress.abreast(other_progress),
    ensures
        history.walk(queue, visits, named, progress, replies).abreast(
            history.walk(queue, visits, named, other_progress, other_replies),
        ),
    decreases visits,
{
    if visits > 0 && queue.len() > 0 {
        walk_abreast(
            history,
            history.advance(queue),
            (visits - 1) as nat,
            None,
            history.visit(queue[0], named, progress, replies),
            replies,
            history.visit(queue[0], named, other_progress, other_replies),
            other_replies,
        );
    }
}

/// Which operations are validated, which transitions are checked against their anchors and
/// which transactions the resolver is asked for does not depend on what was found before nor on
/// what the resolver replies.
pub proof fn branches_abreast(
    history: History,
    ends: Seq<(Transition, BundleId)>,
    from: int,
    progress: Progress,
    replies: Seq<Reply>,
    other_progress: Progress,
    other_replies: Seq<Reply>,
)
    requires
        progress.abreast(other_progress),
    ensures
        history.branches(ends, from, progress, replies).abreast(
            history.branches(ends, from, other_progress, other_replies),
        ),
    decreases ends.len() - from,
{
    if 0 <= from < ends.len() {
        let transition = ends[from].0;
        let queue = seq![Operation::Transition(transition)];
        let visits = choose|visits: nat| history.ends_after(queue, visits);
        let named = Some(ends[from].1);
        walk_abreast(
            history,
            queue,
            visits,
            named,
            progress,
            replies,
            other_progress,
            other_replies,
        );
        branches_abreast(
            history,
            ends,
            from + 1,
            history.branch(transition, ends[from].1, progress, replies),
            replies,
            history.branch(transition, ends[from].1, other_progress, other_replies),
            other_replies,
        );
    }
}

/// The questions put to the resolver do not depend on its replies.
pub proof fn questions_fixed(history: History, replies: Seq<Reply>, other_replies: Seq<Reply>)
    ensures
        history.validation(replies).abreast(history.validation(other_replies)),
{
    let founded = history.found(history.started());
    branches_abreast(
        history,
        history.ends().transitions,
        0,
        founded,
        replies,
        founded,
        other_replies,
    );
}

proof fn visit_asks_once(
    history: History,
    operation: Operation,
    named: Option<BundleId>,
    progress: Progress,
    replies: Seq<Reply>,
)
    requires
        progress.asked_once(history),
    ensures
        history.visit(operation, named, progress, replies).asked_once(history),
{
    let next = history.visit(operation, named, progress, replies);
    assert forall|i: int| 0 <= i < next.asked.len() implies next.anchored_in(
        history,
        #[trigger] next.asked[i],
    ) by {
        if i < progress.asked.len() {
            assert(progress.anchored_in(history, progress.asked[i]));
            let id = choose|id: OpId| #[trigger]
                progress.anchored.contains(id) && (history.anchor(id) matches Some(anchor)
                    && anchor.parts().txid == progress.asked[i]);
            assert(next.anchored.contains(id));
        } else {
            assert(next.anchored.contains(operation.id()));
        }
    }
}

proof fn walk_asks_once(
    history: History,
    queue: Seq<Operation>,
    visits: nat,
    named: Option<BundleId>,
    progress: Progress,
    replies: Seq<Reply>,
)
    requires
        progress.asked_once(history),
    ensures
        history.walk(queue, visits, named, progress, replies).asked_once(history),
    decreases visits,
{
    if visits > 0 && queue.len() > 0 {
        visit_asks_once(history, queue[0], named, progress, replies);
        walk_asks_once(
            history,
            history.advance(queue),
            (visits - 1) as nat,
            None,
            history.visit(queue[0], named, progress, replies),
            replies,
        );
    }
}

proof fn branches_ask_once(
    history: History,
    ends: Seq<(Transition, BundleId)>,
    from: int,
    progress: Progress,
    replies: Seq<Reply>,
)
    requires
        progress.asked_once(history),
    ensures
        history.branches(ends, from, progress, replies).asked_once(history),
    decreases ends.len() - from,
{
    if 0 <= from < ends.len() {
        let transition = ends[from].0;
        let queue = seq![Operation::Transition(transition)];
        let visits = choose|visits: nat| history.ends_after(queue, visits);
        let named = Some(ends[from].1);
        walk_asks_once(history, queue, visits, named, progress, replies);
        branches_ask_once(
            history,
            ends,
            from + 1,
            history.branch(transition, ends[from].1, progress, replies),
            replies,
        );
    }
}

/// The resolver is asked once for each transition that is checked against its anchor, however
/// many operations build upon it, and these transitions are all validated.
pub proof fn questions_not_repeated(history: History, replies: Seq<Reply>)
    ensures
        history.validation(replies).asked_once(history),
{
    let ends = history.ends().transitions;
    let founded = history.found(history.started());
    branches_ask_once(history, ends, 0, founded, replies);
    let visited = history.branches(ends, 0, founded, replies);
    let last = history.validation(replies);
    if history.goes_on() {
        assert(last.abreast(visited));
    }
}

pub(crate) proof fn walk_anchors(
    history: History,
    queue: Seq<Operation>,
    visits: nat,
    named: Option<BundleId>,
    progress: Progress,
    replies: Seq<Reply>,
    i: int,
    transition: Transition,
    steps: nat,
)
    requires
        history.ends_after(queue, visits),
        0 <= i < queue.len(),
        history.descends(queue[i], Operation::Transition(transition), steps),
        history.anchor(transition.id) is Some,
    ensures
        history.walk(queue, visits, named, progress, replies).anchored.contains(
            transition.id,
        ),
    decreases visits,
{
    let rest = (visits - 1) as nat;
    let ahead = history.advance(queue);
    let next = history.visit(queue[0], named, progress, replies);
    if i > 0 {
        assert(ahead[i - 1] == queue[i]);
        walk_anchors(history, ahead, rest, None, next, replies, i - 1, transition, steps);
    } else if steps == 0 {
        walk_extends(history, ahead, rest, None, next, replies);
    } else {
        let parents = history.parents(queue[0]);
        let fewer = (steps - 1) as nat;
        let j = choose|j: int|
            0 <= j < parents.len() && history.descends(
                #[trigger] parents[j],
                Operation::Transition(transition),
                fewer,
            );
        let k = queue.len() - 1 + j;
        assert(ahead[k] == parents[j]);
        walk_anchors(history, ahead, rest, None, next, replies, k, transition, fewer);
    }
}

proof fn branches_anchor(
    history: History,
    ends: Seq<(Transition, BundleId)>,
    from: int,
    progress: Progress,
    replies: Seq<Reply>,
    end: int,
    transition: Transition,
)
    requires
        0 <= from <= end < ends.len(),
        history.finite(seq![Operation::Transition(ends[end].0)]),
        history.reaches(
            seq![Operation::Transition(ends[end].0)],
            Operation::Transition(transition),
        ),
        history.anchor(transition.id) is Some,
    ensures
        history.branches(ends, from, progress, replies).anchored.contains(transition.id),
    decreases ends.len() - from,
{
    let first = ends[from].0;
    let next = history.branch(first, ends[from].1, progress, replies);
    if from < end {
        branches_anchor(history, ends, from + 1, next, replies, end, transition);
    } else {
        let queue = seq![Operation::Transition(first)];
        let visits = choose|visits: nat| history.ends_after(queue, visits);
        let named = Some(ends[from].1);
        let (i, steps) = choose|i: int, steps: nat|
            0 <= i < queue.len() && #[trigger] history.descends(
                queue[i],
                Operation::Transition(transition),
                steps,
            );
        walk_anchors(
            history,
            queue,
            visits,
            named,
            progress,
            replies,
            i,
            transition,
            steps,
        );
        branches_extend(history, ends, from + 1, next, replies);
    }
}

/// Every transition that is an end or an ancestor of one, and has an anchor, is checked against
/// it.
pub proof fn ancestors_anchored(history: History, replies: Seq<Reply>, transition: Transition)
    requires
        history.goes_on(),
        ancestry_finite(history),
        history.ancestral(Operation::Transition(transition)),
        history.anchor(transition.id) is Some,
    ensures
        history.validation(replies).anchored.contains(transition.id),
{
    let ends = history.ends().transitions;
    let end = choose|end: int|
        0 <= end < ends.len() && history.reaches(
            seq![Operation::Transition((#[trigger] ends[end]).0)],
            Operation::Transition(transition),
        );
    let founded = history.found(history.started());
    branches_anchor(history, ends, 0, founded, replies, end, transition);
}

/// An operation that was checked against the schema is not checked again: a second visit of an
/// operation adds at most failures in what it builds upon, and the failure to be anchored.
pub proof fn revisit_adds_no_schema_report(
    history: History,
    operation: Operation,
    named: Option<BundleId>,
    progress: Progress,
    replies: Seq<Reply>,
)
    requires
        progress.validated.contains(operation.id()),
        progress.anchored.contains(operation.id()) || !(operation is Transition),
    ensures
        ({
            let next = history.visit(operation, named, progress, replies);
            &&& next.abreast(progress)
            &&& next.report == progress.report.fail_all(
                (if operation is Transition && history.anchor(operation.id()) is None {
                    seq![Failure::NotAnchored(operation.id())]
                } else {
                    Seq::empty()
                }) + history.parent_failures(operation),
            )
        }),
{
    let next = history.visit(operation, named, progress, replies);
    let unanchored = if operation is Transition && history.anchor(operation.id()) is None {
        seq![Failure::NotAnchored(operation.id())]
    } else {
        Seq::empty()
    };
    assert(next.report.failures =~= progress.report.failures + (unanchored
        + history.parent_failures(operation)));
}

/// Where the schema is invalid, nothing is checked against it, and the resolver is asked for
/// nothing.
pub proof fn invalid_schema_stops(history: History, replies: Seq<Reply>)
    requires
        history.schema_report.validity() == Validity::Invalid,
    ensures
        history.validation(replies).report == history.started().report,
        history.validation(replies).validated == Set::<OpId>::empty(),
        history.validation(replies).asked == Seq::<Txid>::empty(),
{
}

/// Where the schema is not that of the genesis, the mismatch is the one failure more, nothing is
/// checked against the schema, and the resolver is asked for nothing.
pub proof fn mismatched_schema_stops(history: History, replies: Seq<Reply>)
    requires
        history.schema_report.validity() != Validity::Invalid,
        history.schema_id != history.genesis.schema_id,
    ensures
        history.validation(replies).report == history.started().report.fail(
            Failure::SchemaMismatch {
                expected: history.genesis.schema_id,
                actual: history.schema_id,
            },
        ),
        history.validation(replies).validated == Set::<OpId>::empty(),
        history.validation(replies).asked == Seq::<Txid>::empty(),
{
}

impl History {
    /// Whether validation goes on to the operations of the contract.
    pub open spec fn goes_on(self) -> bool {
        &&& self.schema_report.validity() != Validity::Invalid
        &&& self.schema_id == self.genesis.schema_id
    }

    /// Whether an identifier is that of the genesis, of an end or of an ancestor of an end.
    pub open spec fn relevant(self, id: OpId) -> bool {
        id == self.genesis.id || exists|ancestor: Operation| #[trigger]
            self.ancestral(ancestor) && ancestor.id() == id
    }
}

/// Holds of the identifiers that are neither that of the genesis nor of an end nor of an
/// ancestor of an end.
pub open spec fn irrelevant(history: History) -> spec_fn(OpId) -> bool {
    |id: OpId| !history.relevant(id)
}

/// The operations validated are the genesis, the ends and their ancestors, and no others.
pub proof fn validated_iff_relevant(history: History, replies: Seq<Reply>, id: OpId)
    requires
        history.goes_on(),
        ancestry_finite(history),
    ensures
        history.validation(replies).validated.contains(id) <==> history.relevant(id),
{
    let ends = history.ends().transitions;
    let founded = history.found(history.started());
    let visited = history.branches(ends, 0, founded, replies);
    branches_extend(history, ends, 0, founded, replies);
    if visited.validated.contains(id) && id != history.genesis.id {
        branches_validate_only(history, ends, 0, founded, replies, id);
        let (end, ancestor) = choose|end: int, ancestor: Operation|
            0 <= end < ends.len() && ancestor.id() == id && #[trigger] history.reaches(
                seq![Operation::Transition(ends[end].0)],
                ancestor,
            );
        assert(ends[end] == history.ends().transitions[end]);
        assert(history.ancestral(ancestor));
    }
    if history.relevant(id) && id != history.genesis.id {
        let ancestor = choose|ancestor: Operation| #[trigger]
            history.ancestral(ancestor) && ancestor.id() == id;
        let end = choose|end: int|
            0 <= end < ends.len() && history.reaches(
                seq![Operation::Transition((#[trigger] ends[end]).0)],
                ancestor,
            );
        branches_validate(history, ends, 0, founded, replies, end, ancestor);
    }
}

/// The operations reported as excessive are, one by one and in their order, those of the
/// consignment that are neither the genesis nor an end nor an ancestor of an end.
pub proof fn excess_reported(history: History, replies: Seq<Reply>)
    requires
        history.goes_on(),
        ancestry_finite(history),
    ensures
        ({
            let ends = history.ends().transitions;
            let visited = history.branches(ends, 0, history.found(history.started()), replies);
            history.validation(replies).report.warnings == history.forgive(
                ends,
                0,
                visited.report,
            ).warnings + history.op_ids.filter(irrelevant(history)).map_values(
                |id: OpId| Warning::ExcessiveOperation(id),
            )
        }),
{
    let validated = history.validation(replies).validated;
    assert forall|id: OpId| validated.contains(id) == #[trigger] history.relevant(id) by {
        validated_iff_relevant(history, replies, id);
    }
    assert(outside(validated) =~= irrelevant(history));
}

} // verus!
