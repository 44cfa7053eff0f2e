//! When the ancestors of an operation can be gone through.
use crate::contract::{History, Operation};
use crate::validation::validator::ancestry_finite;
use vstd::prelude::*;

verus! {

impl History {
    /// Whether every operation ranks higher than those that it builds upon.
    pub open spec fn ranked(self, rank: spec_fn(Operation) -> nat) -> bool {
        forall|operation: Operation, i: int|
            0 <= i < self.parents(operation).len() ==> rank(
                #[trigger] self.parents(operation)[i],
            ) < rank(operation)
    }

    /// Number of visits that an operation and its ancestors below a rank take.
    spec fn cost(self, operation: Operation, below: nat) -> nat
        decreases below, 0nat,
    {
        if below == 0 {
            1
        } else {
            1 + self.costs(self.parents(operation), (below - 1) as nat)
        }
    }

    /// Number of visits that operations and their ancestors below a rank take.
    spec fn costs(self, queue: Seq<Operation>, below: nat) -> nat
        decreases below, 1nat, queue.len(),
    {
        if queue.len() == 0 {
            0
        } else {
            self.cost(queue[0], below) + self.costs(queue.drop_first(), below)
        }
    }
}

proof fn costs_of_both(history: History, queue: Seq<Operation>, more: Seq<Operation>, below: nat)
    ensures
        history.costs(queue + more, below) == history.costs(queue, below) + history.costs(
            more,
            below,
        ),
    decreases queue.len(),
{
    if queue.len() == 0 {
        assert(queue + more =~= more);
    } else {
        assert((queue + more).drop_first() =~= queue.drop_first() + more);
        costs_of_both(history, queue.drop_first(), more, below);
    }
}

/// The bound on the ranks does not matter, as long as it holds.
proof fn cost_of_bound(
    history: History,
    rank: spec_fn(Operation) -> nat,
    operation: Operation,
    below: nat,
    higher: nat,
)
    requires
        history.ranked(rank),
        rank(operation) <= below <= higher,
    ensures
        history.cost(operation, below) == history.cost(operation, higher),
    decreases below, 0nat,
{
    let parents = history.parents(operation);
    if higher > 0 {
        assert forall|i: int| 0 <= i < parents.len() implies rank(#[trigger] parents[i])
            < rank(operation) by {}
        if below == 0 {
            if parents.len() > 0 {
                assert(rank(parents[0]) < rank(operation));
            }
        } else {
            costs_of_bound(
                history,
                rank,
                parents,
                (below - 1) as nat,
                (higher - 1) as nat,
            );
        }
    }
}

proof fn costs_of_bound(
    history: History,
    rank: spec_fn(Operation) -> nat,
    queue: Seq<Operation>,
    below: nat,
    higher: nat,
)
    requires
        history.ranked(rank),
        forall|i: int| 0 <= i < queue.len() ==> rank(#[trigger] queue[i]) <= below,
        below <= higher,
    ensures
        history.costs(queue, below) == history.costs(queue, higher),
    decreases below, 1nat, queue.len(),
{
    if queue.len() > 0 {
        cost_of_bound(history, rank, queue[0], below, higher);
        assert forall|i: int| 0 <= i < queue.drop_first().len() implies rank(
            #[trigger] queue.drop_first()[i],
        ) <= below by {
            assert(queue.drop_first()[i] == queue[i + 1]);
        }
        costs_of_bound(history, rank, queue.drop_first(), below, higher);
    }
}

proof fn ends_after_costs(
    history: History,
    rank: spec_fn(Operation) -> nat,
    queue: Seq<Operation>,
    below: nat,
)
    requires
        history.ranked(rank),
        forall|i: int| 0 <= i < queue.len() ==> rank(#[trigger] queue[i]) <= below,
    ensures
        history.ends_after(queue, history.costs(queue, below)),
    decreases history.costs(queue, below),
{
    if queue.len() > 0 {
        let first = queue[0];
        let parents = history.parents(first);
        let ahead = history.advance(queue);
        assert forall|i: int| 0 <= i < ahead.len() implies rank(#[trigger] ahead[i]) <= below by {
            if i < queue.len() - 1 {
                assert(ahead[i] == queue[i + 1]);
            } else {
                assert(ahead[i] == parents[i - (queue.len() - 1)]);
            }
        }
        costs_of_both(history, queue.drop_first(), parents, below);
        if below == 0 {
            if parents.len() > 0 {
                assert(rank(parents[0]) < rank(first));
            }
        } else {
            assert forall|i: int| 0 <= i < parents.len() implies rank(#[trigger] parents[i])
                <= below - 1 by {
                assert(rank(parents[i]) < rank(first));
            }
            costs_of_bound(history, rank, parents, (below - 1) as nat, below);
        }
        assert(history.costs(queue, below) == 1 + history.costs(ahead, below)) by {
            reveal_with_fuel(History::costs, 2);
            reveal_with_fuel(History::cost, 2);
        }
        ends_after_costs(history, rank, ahead, below);
    }
}

/// Where operations can be ranked above those that they build upon, so that none is an ancestor
/// of itself, the ancestors of every operation can be gone through.
pub proof fn ranked_is_finite(history: History, rank: spec_fn(Operation) -> nat)
    requires
        history.ranked(rank),
    ensures
        forall|operation: Operation| #[trigger] history.finite(seq![operation]),
        ancestry_finite(history),
{
    assert forall|operation: Operation| #[trigger] history.finite(seq![operation]) by {
        let queue = seq![operation];
        ends_after_costs(history, rank, queue, rank(operation));
    }
}

/// Where an operation builds upon itself, validation of it can not come to an end.
pub proof fn cycle_is_not_finite(history: History, queue: Seq<Operation>, looped: int, visits: nat)
    requires
        0 <= looped < queue.len(),
        history.parents(queue[looped]).contains(queue[looped]),
    ensures
        !history.ends_after(queue, visits),
    decreases visits,
{
    if visits > 0 {
        let ahead = history.advance(queue);
        if looped > 0 {
            assert(ahead[looped - 1] == queue[looped]);
            cycle_is_not_finite(history, ahead, looped - 1, (visits - 1) as nat);
        } else {
            let parents = history.parents(queue[0]);
            let i = parents.index_of(queue[0]);
            assert(ahead[queue.len() - 1 + i] == queue[0]);
            cycle_is_not_finite(history, ahead, queue.len() - 1 + i, (visits - 1) as nat);
        }
    }
}

} // verus!
