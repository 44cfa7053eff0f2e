//! What transitions spend, in terms of the operations that a consignment holds.
use crate::contract::{assigns_first, History, Input, Opout};
use crate::ids::OpId;
use crate::validation::bundles::{contains_add, flat_map_steps};
use crate::validation::status::Failure;
use crate::validation::witness::Seal;
use vstd::prelude::*;

verus! {

impl History {
    /// Whether an assignment is known and is made to a revealed seal: among the assignments of the
    /// operation, the first of the type have one with the number, and it is made to the seal.
    pub open spec fn assigned_to(self, out: Opout, seal: Seal) -> bool {
        let assignments = self.operations[out.op].assignments();
        &&& self.operations.contains_key(out.op)
        &&& exists|k: int|
            {
                &&& 0 <= k < assignments.len()
                &&& (#[trigger] assignments[k]).ty == out.ty
                &&& forall|j: int| 0 <= j < k ==> (#[trigger] assignments[j]).ty != out.ty
                &&& out.no < assignments[k].seals@.len()
                &&& assignments[k].seals@[out.no as int].revealed == Some(seal)
            }
    }

    /// Whether an assignment is known and is made to some revealed seal.
    pub open spec fn assigned_openly(self, out: Opout) -> bool {
        exists|seal: Seal| self.assigned_to(out, seal)
    }
}

/// The seal of an input is that of the assignment which it refers to. Where there is none to tell
/// of, the failure says why: the operation is unknown, it assigns no state of the type, it has no
/// assignment of the type with the number, or the seal of the assignment is concealed.
pub proof fn input_seal_outcome(history: History, opid: OpId, input: Input)
    ensures
        ({
            let outcome = history.input_seal(opid, input);
            let out = input.prev_out;
            if !history.operations.contains_key(out.op) {
                outcome == Err::<Seal, Failure>(Failure::OperationAbsent(out.op))
            } else {
                let assignments = history.operations[out.op].assignments();
                if forall|k: int|
                    0 <= k < assignments.len() ==> (#[trigger] assignments[k]).ty != out.ty {
                    outcome == Err::<Seal, Failure>(
                        Failure::NoPrevState { opid, prev_id: out.op, state_type: out.ty },
                    )
                } else {
                    exists|k: int|
                        {
                            &&& 0 <= k < assignments.len()
                            &&& (#[trigger] assignments[k]).ty == out.ty
                            &&& forall|j: int|
                                0 <= j < k ==> (#[trigger] assignments[j]).ty != out.ty
                            &&& if out.no >= assignments[k].seals@.len() {
                                outcome == Err::<Seal, Failure>(Failure::NoPrevOut(opid, out))
                            } else if assignments[k].seals@[out.no as int].revealed is None {
                                outcome == Err::<Seal, Failure>(Failure::ConfidentialSeal(out))
                            } else {
                                outcome == Ok::<Seal, Failure>(
                                    assignments[k].seals@[out.no as int].revealed->Some_0,
                                )
                            }
                        }
                }
            }
        }),
{
    let out = input.prev_out;
    if history.operations.contains_key(out.op) {
        assigns_first(history.operations[out.op], out.ty);
        let assignments = history.operations[out.op].assignments();
        if history.operations[out.op].assigns(out.ty) is Some {
            let found = history.operations[out.op].assigns(out.ty)->Some_0;
            let k = choose|k: int|
                {
                    &&& 0 <= k < assignments.len()
                    &&& #[trigger] assignments[k] == found
                    &&& forall|j: int| 0 <= j < k ==> (#[trigger] assignments[j]).ty != out.ty
                };
            assert(assignments[k].ty == out.ty);
        }
    }
}

/// The seal of an input is known just where the assignment which it refers to is made to it.
pub proof fn input_seal_iff(history: History, opid: OpId, input: Input, seal: Seal)
    ensures
        history.input_seal(opid, input) == Ok::<Seal, Failure>(seal) <==> history.assigned_to(
            input.prev_out,
            seal,
        ),
{
    let out = input.prev_out;
    input_seal_outcome(history, opid, input);
    if history.operations.contains_key(out.op) {
        let assignments = history.operations[out.op].assignments();
        if history.assigned_to(out, seal) {
            let k = choose|k: int|
                {
                    &&& 0 <= k < assignments.len()
                    &&& (#[trigger] assignments[k]).ty == out.ty
                    &&& forall|j: int| 0 <= j < k ==> (#[trigger] assignments[j]).ty != out.ty
                    &&& out.no < assignments[k].seals@.len()
                    &&& assignments[k].seals@[out.no as int].revealed == Some(seal)
                };
            assert(assignments[k].ty == out.ty);
        }
    }
}

proof fn inputs_listed_from(history: History, opid: OpId, inputs: Seq<Input>, from: int)
    requires
        0 <= from <= inputs.len(),
    ensures
        history.input_seals(opid, inputs, from) == inputs.skip(from).flat_map(
            |input: Input|
                match history.input_seal(opid, input) {
                    Ok(seal) => seq![seal],
                    Err(_) => Seq::<Seal>::empty(),
                },
        ),
        history.input_failures(opid, inputs, from) == inputs.skip(from).flat_map(
            |input: Input|
                match history.input_seal(opid, input) {
                    Ok(_) => Seq::<Failure>::empty(),
                    Err(failure) => seq![failure],
                },
        ),
        history.input_seals(opid, inputs, from).len() + history.input_failures(
            opid,
            inputs,
            from,
        ).len() == inputs.len() - from,
        forall|i: int|
            from <= i < inputs.len() ==> match history.input_seal(opid, #[trigger] inputs[i]) {
                Ok(seal) => history.input_seals(opid, inputs, from).contains(seal),
                Err(failure) => history.input_failures(opid, inputs, from).contains(failure),
            },
    decreases inputs.len() - from,
{
    let f = |input: Input|
        match history.input_seal(opid, input) {
            Ok(seal) => seq![seal],
            Err(_) => Seq::<Seal>::empty(),
        };
    let g = |input: Input|
        match history.input_seal(opid, input) {
            Ok(_) => Seq::<Failure>::empty(),
            Err(failure) => seq![failure],
        };
    flat_map_steps(inputs, f, from);
    flat_map_steps(inputs, g, from);
    if from < inputs.len() {
        inputs_listed_from(history, opid, inputs, from + 1);
        let seals = history.input_seals(opid, inputs, from + 1);
        let failures = history.input_failures(opid, inputs, from + 1);
        assert(history.input_seals(opid, inputs, from) =~= f(inputs[from]) + seals);
        assert(history.input_failures(opid, inputs, from) =~= g(inputs[from]) + failures);
        assert forall|i: int| from <= i < inputs.len() implies match history.input_seal(
            opid,
            #[trigger] inputs[i],
        ) {
            Ok(seal) => history.input_seals(opid, inputs, from).contains(seal),
            Err(failure) => history.input_failures(opid, inputs, from).contains(failure),
        } by {
            match history.input_seal(opid, inputs[i]) {
                Ok(seal) => {
                    contains_add(f(inputs[from]), seals, seal);
                    if i == from {
                        assert(f(inputs[from])[0] == seal);
                    }
                },
                Err(failure) => {
                    contains_add(g(inputs[from]), failures, failure);
                    if i == from {
                        assert(g(inputs[from])[0] == failure);
                    }
                },
            }
        }
    }
}

/// Every input of a transition comes to a seal or to a failure, one by one and in their order, and
/// none is passed over.
pub proof fn inputs_listed(history: History, opid: OpId, inputs: Seq<Input>)
    ensures
        history.input_seals(opid, inputs, 0) == inputs.flat_map(
            |input: Input|
                match history.input_seal(opid, input) {
                    Ok(seal) => seq![seal],
                    Err(_) => Seq::<Seal>::empty(),
                },
        ),
        history.input_failures(opid, inputs, 0) == inputs.flat_map(
            |input: Input|
                match history.input_seal(opid, input) {
                    Ok(_) => Seq::<Failure>::empty(),
                    Err(failure) => seq![failure],
                },
        ),
        history.input_seals(opid, inputs, 0).len() + history.input_failures(opid, inputs, 0).len()
            == inputs.len(),
        forall|i: int|
            0 <= i < inputs.len() ==> match history.input_seal(opid, #[trigger] inputs[i]) {
                Ok(seal) => history.input_seals(opid, inputs, 0).contains(seal),
                Err(failure) => history.input_failures(opid, inputs, 0).contains(failure),
            },
{
    inputs_listed_from(history, opid, inputs, 0);
    assert(inputs.skip(0) =~= inputs);
}

proof fn seals_from_inputs(history: History, opid: OpId, inputs: Seq<Input>, from: int, k: int)
    requires
        0 <= from,
        0 <= k < history.input_seals(opid, inputs, from).len(),
    ensures
        exists|i: int|
            from <= i < inputs.len() && history.input_seal(opid, #[trigger] inputs[i]) == Ok::<
                Seal,
                Failure,
            >(history.input_seals(opid, inputs, from)[k]),
    decreases inputs.len() - from,
{
    let seal = history.input_seals(opid, inputs, from)[k];
    match history.input_seal(opid, inputs[from]) {
        Ok(_) => {
            if k == 0 {
                assert(history.input_seal(opid, inputs[from]) == Ok::<Seal, Failure>(seal));
            } else {
                seals_from_inputs(history, opid, inputs, from + 1, k - 1);
                let i = choose|i: int|
                    from + 1 <= i < inputs.len() && history.input_seal(opid, #[trigger] inputs[i])
                        == Ok::<Seal, Failure>(
                        history.input_seals(opid, inputs, from + 1)[k - 1],
                    );
                assert(history.input_seal(opid, inputs[i]) == Ok::<Seal, Failure>(seal));
            }
        },
        Err(_) => {
            seals_from_inputs(history, opid, inputs, from + 1, k);
            let i = choose|i: int|
                from + 1 <= i < inputs.len() && history.input_seal(opid, #[trigger] inputs[i])
                    == Ok::<Seal, Failure>(history.input_seals(opid, inputs, from + 1)[k]);
            assert(history.input_seal(opid, inputs[i]) == Ok::<Seal, Failure>(seal));
        },
    }
}

/// A seal is among those that a transition closes just where an assignment which one of its inputs
/// refers to, whichever, is made to it.
pub proof fn closes_seal_iff(history: History, opid: OpId, inputs: Seq<Input>, seal: Seal)
    ensures
        history.input_seals(opid, inputs, 0).contains(seal) <==> exists|i: int|
            0 <= i < inputs.len() && history.assigned_to((#[trigger] inputs[i]).prev_out, seal),
{
    inputs_listed(history, opid, inputs);
    if history.input_seals(opid, inputs, 0).contains(seal) {
        let k = history.input_seals(opid, inputs, 0).index_of(seal);
        seals_from_inputs(history, opid, inputs, 0, k);
        let i = choose|i: int|
            0 <= i < inputs.len() && history.input_seal(opid, #[trigger] inputs[i]) == Ok::<
                Seal,
                Failure,
            >(seal);
        input_seal_iff(history, opid, inputs[i], seal);
    }
    if exists|i: int|
        0 <= i < inputs.len() && history.assigned_to((#[trigger] inputs[i]).prev_out, seal) {
        let i = choose|i: int|
            0 <= i < inputs.len() && history.assigned_to((#[trigger] inputs[i]).prev_out, seal);
        input_seal_iff(history, opid, inputs[i], seal);
    }
}

/// No input of a transition fails just where every one of them refers to an assignment that is
/// known and made to a revealed seal.
pub proof fn no_input_failures_iff(history: History, opid: OpId, inputs: Seq<Input>)
    ensures
        history.input_failures(opid, inputs, 0).len() == 0 <==> forall|i: int|
            0 <= i < inputs.len() ==> history.assigned_openly((#[trigger] inputs[i]).prev_out),
{
    inputs_listed(history, opid, inputs);
    if history.input_failures(opid, inputs, 0).len() == 0 {
        assert forall|i: int| 0 <= i < inputs.len() implies history.assigned_openly(
            (#[trigger] inputs[i]).prev_out,
        ) by {
            let seal = history.input_seal(opid, inputs[i])->Ok_0;
            input_seal_iff(history, opid, inputs[i], seal);
        }
    } else {
        if forall|i: int|
            0 <= i < inputs.len() ==> history.assigned_openly((#[trigger] inputs[i]).prev_out) {
            all_inputs_known(history, opid, inputs, 0);
        }
    }
}

proof fn all_inputs_known(history: History, opid: OpId, inputs: Seq<Input>, from: int)
    requires
        0 <= from,
        forall|i: int|
            0 <= i < inputs.len() ==> history.assigned_openly((#[trigger] inputs[i]).prev_out),
    ensures
        history.input_failures(opid, inputs, from).len() == 0,
    decreases inputs.len() - from,
{
    if from < inputs.len() {
        all_inputs_known(history, opid, inputs, from + 1);
        let seal = choose|seal: Seal| history.assigned_to(inputs[from].prev_out, seal);
        input_seal_iff(history, opid, inputs[from], seal);
    }
}

} // verus!
