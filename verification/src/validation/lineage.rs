//! What operations build upon, in terms of the operations that a consignment holds.
use crate::contract::{Extension, Genesis, History, Input, Operation, Redeemed, Transition};
use crate::ids::OpId;
use crate::validation::laws::{parents_ancestral, validated_iff_relevant};
use crate::validation::model::Reply;
use crate::validation::bundles::{flat_map_contains, flat_map_steps};
use crate::validation::status::Failure;
use crate::validation::validator::ancestry_finite;
use vstd::prelude::*;

verus! {

proof fn inputs_taken_from(history: History, inputs: Seq<Input>, from: int)
    requires
        0 <= from <= inputs.len(),
    ensures
        history.input_parents(inputs, from) == inputs.skip(from).flat_map(
            |input: Input|
                if history.operations.contains_key(input.prev_out.op) {
                    seq![history.operations[input.prev_out.op]]
                } else {
                    Seq::<Operation>::empty()
                },
        ),
        history.absent_failures(inputs, from) == inputs.skip(from).flat_map(
            |input: Input|
                if history.operations.contains_key(input.prev_out.op) {
                    Seq::<Failure>::empty()
                } else {
                    seq![Failure::TransitionAbsent(input.prev_out.op)]
                },
        ),
        history.input_parents(inputs, from).len() + history.absent_failures(inputs, from).len()
            == inputs.len() - from,
    decreases inputs.len() - from,
{
    let f = |input: Input|
        if history.operations.contains_key(input.prev_out.op) {
            seq![history.operations[input.prev_out.op]]
        } else {
            Seq::<Operation>::empty()
        };
    let g = |input: Input|
        if history.operations.contains_key(input.prev_out.op) {
            Seq::<Failure>::empty()
        } else {
            seq![Failure::TransitionAbsent(input.prev_out.op)]
        };
    flat_map_steps(inputs, f, from);
    flat_map_steps(inputs, g, from);
    if from < inputs.len() {
        inputs_taken_from(history, inputs, from + 1);
        assert(history.input_parents(inputs, from) =~= f(inputs[from]) + history.input_parents(
            inputs,
            from + 1,
        ));
        assert(history.absent_failures(inputs, from) =~= g(inputs[from]) + history.absent_failures(
            inputs,
            from + 1,
        ));
    }
}

/// A transition builds upon the operations which its inputs refer to, input by input and in their
/// order, and every input that refers to an unknown operation is a failure.
pub proof fn transition_parents_listed(history: History, transition: Transition)
    ensures
        history.parents(Operation::Transition(transition)) == transition.inputs@.flat_map(
            |input: Input|
                if history.operations.contains_key(input.prev_out.op) {
                    seq![history.operations[input.prev_out.op]]
                } else {
                    Seq::<Operation>::empty()
                },
        ),
        history.parent_failures(Operation::Transition(transition)) == transition.inputs@.flat_map(
            |input: Input|
                if history.operations.contains_key(input.prev_out.op) {
                    Seq::<Failure>::empty()
                } else {
                    seq![Failure::TransitionAbsent(input.prev_out.op)]
                },
        ),
        history.parents(Operation::Transition(transition)).len() + history.parent_failures(
            Operation::Transition(transition),
        ).len() == transition.inputs@.len(),
{
    inputs_taken_from(history, transition.inputs@, 0);
    assert(transition.inputs@.skip(0) =~= transition.inputs@);
}

proof fn redeemed_taken_from(history: History, opid: OpId, redeemed: Seq<Redeemed>, from: int)
    requires
        0 <= from <= redeemed.len(),
    ensures
        history.valency_parents(opid, redeemed, from) == redeemed.skip(from).flat_map(
            |entry: Redeemed|
                if history.operations.contains_key(entry.prev_id)
                    && history.operations[entry.prev_id].valencies().contains(entry.valency) {
                    seq![history.operations[entry.prev_id]]
                } else {
                    Seq::<Operation>::empty()
                },
        ),
        history.valency_failures(opid, redeemed, from) == redeemed.skip(from).flat_map(
            |entry: Redeemed|
                if !history.operations.contains_key(entry.prev_id) {
                    seq![
                        Failure::ValencyNoParent {
                            opid,
                            prev_id: entry.prev_id,
                            valency: entry.valency,
                        },
                    ]
                } else if !history.operations[entry.prev_id].valencies().contains(entry.valency) {
                    seq![
                        Failure::NoPrevValency {
                            opid,
                            prev_id: entry.prev_id,
                            valency: entry.valency,
                        },
                    ]
                } else {
                    Seq::<Failure>::empty()
                },
        ),
        history.valency_parents(opid, redeemed, from).len() + history.valency_failures(
            opid,
            redeemed,
            from,
        ).len() == redeemed.len() - from,
    decreases redeemed.len() - from,
{
    let f = |entry: Redeemed|
        if history.operations.contains_key(entry.prev_id)
            && history.operations[entry.prev_id].valencies().contains(entry.valency) {
            seq![history.operations[entry.prev_id]]
        } else {
            Seq::<Operation>::empty()
        };
    let g = |entry: Redeemed|
        if !history.operations.contains_key(entry.prev_id) {
            seq![
                Failure::ValencyNoParent { opid, prev_id: entry.prev_id, valency: entry.valency },
            ]
        } else if !history.operations[entry.prev_id].valencies().contains(entry.valency) {
            seq![
                Failure::NoPrevValency { opid, prev_id: entry.prev_id, valency: entry.valency },
            ]
        } else {
            Seq::<Failure>::empty()
        };
    flat_map_steps(redeemed, f, from);
    flat_map_steps(redeemed, g, from);
    if from < redeemed.len() {
        redeemed_taken_from(history, opid, redeemed, from + 1);
        assert(history.valency_parents(opid, redeemed, from) =~= f(redeemed[from])
            + history.valency_parents(opid, redeemed, from + 1));
        assert(history.valency_failures(opid, redeemed, from) =~= g(redeemed[from])
            + history.valency_failures(opid, redeemed, from + 1));
    }
}

/// An extension builds upon the operations which it redeems valencies of, entry by entry and in
/// their order. Every entry that names an unknown operation, or one that does not have the
/// valency, is a failure.
pub proof fn extension_parents_listed(history: History, extension: Extension)
    ensures
        history.parents(Operation::Extension(extension)) == extension.redeemed@.flat_map(
            |entry: Redeemed|
                if history.operations.contains_key(entry.prev_id)
                    && history.operations[entry.prev_id].valencies().contains(entry.valency) {
                    seq![history.operations[entry.prev_id]]
                } else {
                    Seq::<Operation>::empty()
                },
        ),
        history.parent_failures(Operation::Extension(extension)) == extension.redeemed@.flat_map(
            |entry: Redeemed|
                if !history.operations.contains_key(entry.prev_id) {
                    seq![
                        Failure::ValencyNoParent {
                            opid: extension.id,
                            prev_id: entry.prev_id,
                            valency: entry.valency,
                        },
                    ]
                } else if !history.operations[entry.prev_id].valencies().contains(entry.valency) {
                    seq![
                        Failure::NoPrevValency {
                            opid: extension.id,
                            prev_id: entry.prev_id,
                            valency: entry.valency,
                        },
                    ]
                } else {
                    Seq::<Failure>::empty()
                },
        ),
        history.parents(Operation::Extension(extension)).len() + history.parent_failures(
            Operation::Extension(extension),
        ).len() == extension.redeemed@.len(),
{
    redeemed_taken_from(history, extension.id, extension.redeemed@, 0);
    assert(extension.redeemed@.skip(0) =~= extension.redeemed@);
}

/// A genesis builds upon nothing.
pub proof fn genesis_parents_none(history: History, genesis: Genesis)
    ensures
        history.parents(Operation::Genesis(genesis)).len() == 0,
        history.parent_failures(Operation::Genesis(genesis)).len() == 0,
{
}

/// A transition builds upon an operation just where one of its inputs, whichever, refers to it,
/// and fails for an operation just where one of its inputs refers to it and it is unknown.
pub proof fn transition_parent_iff(
    history: History,
    transition: Transition,
    parent: Operation,
    failure: Failure,
)
    ensures
        history.parents(Operation::Transition(transition)).contains(parent) <==> exists|i: int|
            {
                &&& 0 <= i < transition.inputs@.len()
                &&& history.operations.contains_key((#[trigger] transition.inputs@[i]).prev_out.op)
                &&& history.operations[transition.inputs@[i].prev_out.op] == parent
            },
        history.parent_failures(Operation::Transition(transition)).contains(failure) <==> exists|
            i: int,
        |
            {
                &&& 0 <= i < transition.inputs@.len()
                &&& !history.operations.contains_key((#[trigger] transition.inputs@[i]).prev_out.op)
                &&& failure == Failure::TransitionAbsent(transition.inputs@[i].prev_out.op)
            },
{
    let inputs = transition.inputs@;
    let f = |input: Input|
        if history.operations.contains_key(input.prev_out.op) {
            seq![history.operations[input.prev_out.op]]
        } else {
            Seq::<Operation>::empty()
        };
    let g = |input: Input|
        if history.operations.contains_key(input.prev_out.op) {
            Seq::<Failure>::empty()
        } else {
            seq![Failure::TransitionAbsent(input.prev_out.op)]
        };
    transition_parents_listed(history, transition);
    flat_map_contains(inputs, f, parent);
    flat_map_contains(inputs, g, failure);
    assert forall|i: int| 0 <= i < inputs.len() implies (f(#[trigger] inputs[i]).contains(parent)
        <==> history.operations.contains_key(inputs[i].prev_out.op)
        && history.operations[inputs[i].prev_out.op] == parent) by {
        if history.operations.contains_key(inputs[i].prev_out.op) {
            assert(f(inputs[i])[0] == history.operations[inputs[i].prev_out.op]);
        }
    }
    assert forall|i: int| 0 <= i < inputs.len() implies (g(#[trigger] inputs[i]).contains(failure)
        <==> !history.operations.contains_key(inputs[i].prev_out.op) && failure
        == Failure::TransitionAbsent(inputs[i].prev_out.op)) by {
        if !history.operations.contains_key(inputs[i].prev_out.op) {
            assert(g(inputs[i])[0] == Failure::TransitionAbsent(inputs[i].prev_out.op));
        }
    }
}

/// An extension builds upon an operation just where one of the entries that it redeems, whichever,
/// names the operation and a valency that the operation has. It fails just where an entry names
/// an unknown operation or a valency that the operation does not have.
pub proof fn extension_parent_iff(
    history: History,
    extension: Extension,
    parent: Operation,
    failure: Failure,
)
    ensures
        history.parents(Operation::Extension(extension)).contains(parent) <==> exists|j: int|
            {
                &&& 0 <= j < extension.redeemed@.len()
                &&& history.operations.contains_key((#[trigger] extension.redeemed@[j]).prev_id)
                &&& history.operations[extension.redeemed@[j].prev_id].valencies().contains(
                    extension.redeemed@[j].valency,
                )
                &&& history.operations[extension.redeemed@[j].prev_id] == parent
            },
        history.parent_failures(Operation::Extension(extension)).contains(failure) <==> exists|
            j: int,
        |
            {
                &&& 0 <= j < extension.redeemed@.len()
                &&& if !history.operations.contains_key(
                    (#[trigger] extension.redeemed@[j]).prev_id,
                ) {
                    failure == Failure::ValencyNoParent {
                        opid: extension.id,
                        prev_id: extension.redeemed@[j].prev_id,
                        valency: extension.redeemed@[j].valency,
                    }
                } else {
                    !history.operations[extension.redeemed@[j].prev_id].valencies().contains(
                        extension.redeemed@[j].valency,
                    ) && failure == Failure::NoPrevValency {
                        opid: extension.id,
                        prev_id: extension.redeemed@[j].prev_id,
                        valency: extension.redeemed@[j].valency,
                    }
                }
            },
{
    let redeemed = extension.redeemed@;
    let f = |entry: Redeemed|
        if history.operations.contains_key(entry.prev_id)
            && history.operations[entry.prev_id].valencies().contains(entry.valency) {
            seq![history.operations[entry.prev_id]]
        } else {
            Seq::<Operation>::empty()
        };
    let g = |entry: Redeemed|
        if !history.operations.contains_key(entry.prev_id) {
            seq![
                Failure::ValencyNoParent {
                    opid: extension.id,
                    prev_id: entry.prev_id,
                    valency: entry.valency,
                },
            ]
        } else if !history.operations[entry.prev_id].valencies().contains(entry.valency) {
            seq![
                Failure::NoPrevValency {
                    opid: extension.id,
                    prev_id: entry.prev_id,
                    valency: entry.valency,
                },
            ]
        } else {
            Seq::<Failure>::empty()
        };
    extension_parents_listed(history, extension);
    flat_map_contains(redeemed, f, parent);
    flat_map_contains(redeemed, g, failure);
    assert forall|j: int| 0 <= j < redeemed.len() implies (f(#[trigger] redeemed[j]).contains(
        parent,
    ) <==> history.operations.contains_key(redeemed[j].prev_id)
        && history.operations[redeemed[j].prev_id].valencies().contains(redeemed[j].valency)
        && history.operations[redeemed[j].prev_id] == parent) by {
        if f(redeemed[j]).len() > 0 {
            assert(f(redeemed[j])[0] == history.operations[redeemed[j].prev_id]);
        }
    }
    assert forall|j: int| 0 <= j < redeemed.len() implies (g(#[trigger] redeemed[j]).contains(
        failure,
    ) <==> g(redeemed[j]).len() > 0 && failure == g(redeemed[j])[0]) by {}
}

/// What an end or an ancestor of one builds upon is an ancestor of an end and is validated: the
/// known operations which the inputs of a transition refer to, and the known operations of which
/// an extension redeems a valency that they have.
pub proof fn referred_to_validated(history: History, replies: Seq<Reply>, operation: Operation)
    requires
        history.goes_on(),
        ancestry_finite(history),
        history.ancestral(operation),
    ensures
        operation matches Operation::Transition(transition) ==> forall|i: int|
            0 <= i < transition.inputs@.len() && history.operations.contains_key(
                (#[trigger] transition.inputs@[i]).prev_out.op,
            ) ==> {
                let parent = history.operations[transition.inputs@[i].prev_out.op];
                history.ancestral(parent) && history.validation(replies).validated.contains(
                    parent.id(),
                )
            },
        operation matches Operation::Extension(extension) ==> forall|j: int|
            0 <= j < extension.redeemed@.len() && history.operations.contains_key(
                (#[trigger] extension.redeemed@[j]).prev_id,
            ) && history.operations[extension.redeemed@[j].prev_id].valencies().contains(
                extension.redeemed@[j].valency,
            ) ==> {
                let parent = history.operations[extension.redeemed@[j].prev_id];
                history.ancestral(parent) && history.validation(replies).validated.contains(
                    parent.id(),
                )
            },
{
    parents_ancestral(history, operation);
    let parents = history.parents(operation);
    match operation {
        Operation::Genesis(_) => {},
        Operation::Transition(transition) => {
            assert forall|i: int|
                0 <= i < transition.inputs@.len() && history.operations.contains_key(
                    (#[trigger] transition.inputs@[i]).prev_out.op,
                ) implies {
                let parent = history.operations[transition.inputs@[i].prev_out.op];
                history.ancestral(parent) && history.validation(replies).validated.contains(
                    parent.id(),
                )
            } by {
                let parent = history.operations[transition.inputs@[i].prev_out.op];
                transition_parent_iff(
                    history,
                    transition,
                    parent,
                    Failure::TransitionAbsent(transition.id),
                );
                assert(parents[parents.index_of(parent)] == parent);
                validated_iff_relevant(history, replies, parent.id());
            }
        },
        Operation::Extension(extension) => {
            assert forall|j: int|
                0 <= j < extension.redeemed@.len() && history.operations.contains_key(
                    (#[trigger] extension.redeemed@[j]).prev_id,
                ) && history.operations[extension.redeemed@[j].prev_id].valencies().contains(
                    extension.redeemed@[j].valency,
                ) implies {
                let parent = history.operations[extension.redeemed@[j].prev_id];
                history.ancestral(parent) && history.validation(replies).validated.contains(
                    parent.id(),
                )
            } by {
                let parent = history.operations[extension.redeemed@[j].prev_id];
                extension_parent_iff(
                    history,
                    extension,
                    parent,
                    Failure::TransitionAbsent(extension.id),
                );
                assert(parents[parents.index_of(parent)] == parent);
                validated_iff_relevant(history, replies, parent.id());
            }
        },
    }
}

} // verus!
