//! Whatever values meet the constraints of a statement come from its circuit.

use crate::consumers::backend::{Answer, BackendState, Request, ZKBackend};
use crate::consumers::coupling::{coupled, paired, public_part, public_part_is_accepted, Relating};
use crate::consumers::invariance::{kept_by_gates, keeps_gates};
use crate::consumers::plaintext::{plain_state, PlaintextBackend};
use crate::consumers::r1cs_builder::{combination, empty_r1cs, longest, padded_all, pair, R1csV};
use crate::consumers::r1cs_law::{
    circuit_dialect, claim, is_claim, lemma_byte, lemma_claim, lemma_one_term, lemma_two_terms,
    lemma_variables_of_wires, opened,
};
use crate::consumers::semantics::{
    all_defined, fresh, with_message, with_messages, Env, EvaluatorV, Machine, MAX_NESTING,
};
use crate::consumers::simulation::{same_field, spoken_messages};
use crate::consumers::to_r1cs::{
    converted, converter_after, converter_answer, converter_state, system_of, written,
    ToR1CSConverter,
};
use crate::consumers::verifier_law::{
    lemma_next_system, lemma_pair, public_system, same_but_private,
};
use crate::number::{le_bytes, le_value, lemma_trailing_zeros, lemma_value_of_bytes};
use crate::structs::message::Message;
use crate::structs::r1cs::{weighed, ConstraintV, VariablesV};
use crate::structs::relation::{Relation, BOOL};
use vstd::arithmetic::div_mod::{
    lemma_add_mod_noop, lemma_mod_multiples_vanish, lemma_mod_twice, lemma_mul_mod_noop,
    lemma_small_mod,
};
use vstd::prelude::*;

verus! {

/// Whether values meet all constraints of a system modulo a number.
pub open spec fn meets(v: R1csV, values: Map<u64, nat>, modulus: nat) -> bool {
    forall|i: int|
        0 <= i < v.constraints.len() ==> (#[trigger] v.constraints[i]).met_modulo(values, modulus)
}

/// Whether values are, modulo a number, those that a system lists for its instance variables.
pub open spec fn keeps_instance(v: R1csV, values: Map<u64, nat>, modulus: nat) -> bool {
    forall|i: int|
        0 <= i < v.instances.len() ==> values[(#[trigger] v.instances[i]).id] % modulus == le_value(
            v.instances[i].value,
        ) % modulus
}

/// Whether values are, modulo a number, those of the witness: the variable that a witness value
/// is written as, the first free one at that time, has this value.
pub open spec fn keeps_witness(
    use_correction: bool,
    requests: Seq<Request>,
    values: Map<u64, nat>,
    modulus: nat,
) -> bool
    decreases requests.len(),
{
    requests.len() > 0 ==> {
        let before = requests.drop_last();
        &&& keeps_witness(use_correction, before, values, modulus)
        &&& requests.last() matches Request::Witness(Some(x)) ==> values[converted(
            true,
            use_correction,
            before,
        ).free_id as u64] % modulus == x % modulus
    }
}

/// Whether values are, modulo a number, those that variables were given.
pub open spec fn congruent(given: Map<u64, nat>, values: Map<u64, nat>, modulus: nat) -> bool {
    forall|id: u64| #[trigger]
        given.contains_key(id) ==> values[id] % modulus == given[id] % modulus
}

/// Whether requests are all over one field.
spec fn over(requests: Seq<Request>, modulus: nat) -> bool {
    forall|i: int|
        0 <= i < requests.len() ==> (#[trigger] requests[i] matches Request::SetField {
            modulus: bytes,
            ..
        } ==> le_value(bytes) == modulus)
}

/// A result stands, modulo the modulus, for its first variable.
proof fn lemma_first_term(v: R1csV, out: u64, correction: u64, values: Map<u64, nat>)
    requires
        v.modulus > 0,
    ensures
        weighed(v.unreduced(out, correction).split(), values) % v.modulus == values[out]
            % v.modulus,
{
    lemma_byte(1);
    let m = v.modulus;
    assert(1 * values[out] == values[out]);
    if v.use_correction {
        lemma_two_terms(out, correction, seq![1u8], le_bytes(m), values);
        lemma_value_of_bytes(m);
        lemma_mod_multiples_vanish(values[correction] as int, values[out] as int, m as int);
    } else {
        lemma_one_term(out, seq![1u8], values);
    }
}

/// What an operation that is accepted leaves, all values being known.
proof fn lemma_accepted(
    v: R1csV,
    total: Answer,
    constraint: spec_fn(VariablesV) -> ConstraintV,
)
    requires
        v.use_witness,
        R1csV::constrained(v.result_of(total), constraint).1 is Ok,
    ensures
        ({
            let w = R1csV::constrained(v.result_of(total), constraint).0;
            let (out, correction) = v.result_of(total).1->Ok_0;
            &&& total is Ok
            &&& v.modulus > 0
            &&& w.assignment == v.assignment.insert(out, total->Ok_0 % v.modulus)
            &&& w.constraints == v.constraints.push(constraint(v.unreduced(out, correction)))
            &&& w.instances == v.instances
            &&& w.modulus == v.modulus
            &&& w.use_witness
            &&& w.use_correction == v.use_correction
        }),
{
}

/// An operation whose constraint fixes its result keeps values congruent.
proof fn lemma_fixed(
    v: R1csV,
    w: R1csV,
    out: u64,
    correction: u64,
    total: nat,
    values: Map<u64, nat>,
)
    requires
        v.modulus > 0,
        congruent(v.assignment, values, v.modulus),
        w.assignment == v.assignment.insert(out, total % v.modulus),
        weighed(v.unreduced(out, correction).split(), values) % v.modulus == total % v.modulus,
    ensures
        congruent(w.assignment, values, v.modulus),
{
    lemma_first_term(v, out, correction, values);
    lemma_mod_twice(total as int, v.modulus as int);
}

/// The last constraint of a system that values meet is met.
proof fn lemma_last_met(w: R1csV, c: ConstraintV, values: Map<u64, nat>, modulus: nat)
    requires
        meets(w, values, modulus),
        w.constraints.len() > 0,
        w.constraints.last() == c,
    ensures
        c.met_modulo(values, modulus),
{
    assert(w.constraints[w.constraints.len() - 1].met_modulo(values, modulus));
}

proof fn lemma_sum_fixed(v: R1csV, a: nat, b: nat, values: Map<u64, nat>)
    requires
        v.use_witness,
        v.sum(a, b).1 is Ok,
        values[0] == 1,
        meets(v.sum(a, b).0, values, v.modulus),
        congruent(v.assignment, values, v.modulus),
    ensures
        congruent(v.sum(a, b).0.assignment, values, v.modulus),
{
    let m = v.modulus;
    let (x, y) = (a as u64, b as u64);
    let total = match v.value(a, "Add(a): Value does not exist."@) {
        Err(t) => Err(t),
        Ok(x) => match v.value(b, "Add(b): Value does not exist."@) {
            Err(t) => Err(t),
            Ok(y) => Ok(x + y),
        },
    };
    let constraint = |result: VariablesV|
        ConstraintV {
            a: result,
            b: combination(seq![0u64], seq![1u8]),
            c: combination(seq![a as u64, b as u64], seq![1u8, 1u8]),
        };
    let w = v.sum(a, b).0;
    assert(w == R1csV::constrained(v.result_of(total), constraint).0);
    lemma_accepted(v, total, constraint);
    let (out, correction) = v.result_of(total).1->Ok_0;
    let result = v.unreduced(out, correction);
    lemma_last_met(w, constraint(result), values, m);
    lemma_byte(1);
    lemma_one_term(0, seq![1u8], values);
    assert(pair(seq![1u8], seq![1u8]) =~= seq![1u8, 1u8]) by {
        reveal_with_fuel(longest, 3);
        reveal_with_fuel(padded_all, 3);
        assert(seq![seq![1u8], seq![1u8]].drop_last() =~= seq![seq![1u8]]);
        assert(seq![seq![1u8]].drop_last() =~= Seq::empty());
    }
    lemma_two_terms(x, y, seq![1u8], seq![1u8], values);
    let r = weighed(result.split(), values);
    assert(1 * values[0] == 1);
    assert(r * 1 == r) by (nonlinear_arith);
    assert(1 * values[x] == values[x] && 1 * values[y] == values[y]);
    assert(r % m == (values[x] + values[y]) % m);
    lemma_add_mod_noop(values[x] as int, values[y] as int, m as int);
    lemma_add_mod_noop(v.assignment[x] as int, v.assignment[y] as int, m as int);
    lemma_fixed(v, w, out, correction, v.assignment[x] + v.assignment[y], values);
}

proof fn lemma_product_fixed(v: R1csV, a: nat, b: nat, values: Map<u64, nat>)
    requires
        v.use_witness,
        v.product(a, b).1 is Ok,
        values[0] == 1,
        meets(v.product(a, b).0, values, v.modulus),
        congruent(v.assignment, values, v.modulus),
    ensures
        congruent(v.product(a, b).0.assignment, values, v.modulus),
{
    let m = v.modulus;
    let (x, y) = (a as u64, b as u64);
    let total = match v.value(a, "Multiply(a): Value does not exist."@) {
        Err(t) => Err(t),
        Ok(x) => match v.value(b, "Multiply(b): Value does not exist."@) {
            Err(t) => Err(t),
            Ok(y) => Ok(x * y),
        },
    };
    let constraint = |result: VariablesV|
        ConstraintV {
            a: combination(seq![a as u64], seq![1u8]),
            b: combination(seq![b as u64], seq![1u8]),
            c: result,
        };
    let w = v.product(a, b).0;
    assert(w == R1csV::constrained(v.result_of(total), constraint).0);
    lemma_accepted(v, total, constraint);
    let (out, correction) = v.result_of(total).1->Ok_0;
    let result = v.unreduced(out, correction);
    lemma_last_met(w, constraint(result), values, m);
    lemma_byte(1);
    lemma_one_term(x, seq![1u8], values);
    lemma_one_term(y, seq![1u8], values);
    let r = weighed(result.split(), values);
    assert(1 * values[x] == values[x] && 1 * values[y] == values[y]);
    assert(r % m == (values[x] * values[y]) % m);
    lemma_mul_mod_noop(values[x] as int, values[y] as int, m as int);
    lemma_mul_mod_noop(v.assignment[x] as int, v.assignment[y] as int, m as int);
    lemma_fixed(v, w, out, correction, v.assignment[x] * v.assignment[y], values);
}

proof fn lemma_constant_sum_fixed(v: R1csV, a: nat, c: nat, values: Map<u64, nat>)
    requires
        v.use_witness,
        v.constant_sum(a, c).1 is Ok,
        values[0] == 1,
        meets(v.constant_sum(a, c).0, values, v.modulus),
        congruent(v.assignment, values, v.modulus),
    ensures
        congruent(v.constant_sum(a, c).0.assignment, values, v.modulus),
{
    let m = v.modulus;
    let x = a as u64;
    let total = match v.value(a, "AddConstant: Value does not exist."@) {
        Err(t) => Err(t),
        Ok(x) => Ok(x + c),
    };
    let constraint = |result: VariablesV|
        ConstraintV {
            a: result,
            b: combination(seq![0u64], seq![1u8]),
            c: combination(seq![a as u64, 0u64], pair(seq![1u8], le_bytes(c))),
        };
    let w = v.constant_sum(a, c).0;
    assert(w == R1csV::constrained(v.result_of(total), constraint).0);
    lemma_accepted(v, total, constraint);
    let (out, correction) = v.result_of(total).1->Ok_0;
    let result = v.unreduced(out, correction);
    lemma_last_met(w, constraint(result), values, m);
    lemma_byte(1);
    lemma_value_of_bytes(c);
    lemma_one_term(0, seq![1u8], values);
    lemma_two_terms(x, 0, seq![1u8], le_bytes(c), values);
    let r = weighed(result.split(), values);
    assert(1 * values[0] == 1);
    assert(r * 1 == r) by (nonlinear_arith);
    assert(1 * values[x] == values[x]);
    assert(c * values[0] == c) by (nonlinear_arith)
        requires
            values[0] == 1,
    ;
    assert(r % m == (values[x] + c) % m);
    lemma_add_mod_noop(values[x] as int, c as int, m as int);
    lemma_add_mod_noop(v.assignment[x] as int, c as int, m as int);
    lemma_fixed(v, w, out, correction, v.assignment[x] + c, values);
}

proof fn lemma_constant_product_fixed(v: R1csV, a: nat, c: nat, values: Map<u64, nat>)
    requires
        v.use_witness,
        v.constant_product(a, c).1 is Ok,
        values[0] == 1,
        meets(v.constant_product(a, c).0, values, v.modulus),
        congruent(v.assignment, values, v.modulus),
    ensures
        congruent(v.constant_product(a, c).0.assignment, values, v.modulus),
{
    let m = v.modulus;
    let x = a as u64;
    let total = match v.value(a, "MulConstant: Value does not exist."@) {
        Err(t) => Err(t),
        Ok(x) => Ok(x * c),
    };
    let constraint = |result: VariablesV|
        ConstraintV {
            a: combination(seq![a as u64], le_bytes(c)),
            b: combination(seq![0u64], seq![1u8]),
            c: result,
        };
    let w = v.constant_product(a, c).0;
    assert(w == R1csV::constrained(v.result_of(total), constraint).0);
    lemma_accepted(v, total, constraint);
    let (out, correction) = v.result_of(total).1->Ok_0;
    let result = v.unreduced(out, correction);
    lemma_last_met(w, constraint(result), values, m);
    lemma_byte(1);
    lemma_value_of_bytes(c);
    lemma_one_term(0, seq![1u8], values);
    lemma_one_term(x, le_bytes(c), values);
    let r = weighed(result.split(), values);
    assert(1 * values[0] == 1);
    assert(c * values[x] == values[x] * c) by (nonlinear_arith);
    assert((values[x] * c) * 1 == values[x] * c) by (nonlinear_arith);
    assert(r % m == (values[x] * c) % m);
    lemma_mul_mod_noop(values[x] as int, c as int, m as int);
    lemma_mul_mod_noop(v.assignment[x] as int, c as int, m as int);
    lemma_fixed(v, w, out, correction, v.assignment[x] * c, values);
}

/// An instance value is read back from the bytes that list it.
proof fn lemma_listed_value(v: R1csV, x: nat, values: Map<u64, nat>, modulus: nat)
    requires
        v.use_witness,
        v.with_instance(x).1 is Ok,
        keeps_instance(v.with_instance(x).0, values, modulus),
        congruent(v.assignment, values, modulus),
    ensures
        congruent(v.with_instance(x).0.assignment, values, modulus),
{
    let w = v.with_instance(x).0;
    let last = w.instances[w.instances.len() - 1];
    assert(last == w.instances.last());
    lemma_value_of_bytes(x);
    lemma_trailing_zeros(le_bytes(x), (v.byte_len - le_bytes(x).len()) as nat);
    assert(le_value(last.value) == x);
    assert(w.assignment == v.assignment.insert(last.id, x));
}

/// Whether a system holds what another one does, and was made in the same way.
spec fn extends(v: R1csV, w: R1csV) -> bool {
    &&& w.use_witness
    &&& w.use_correction == v.use_correction
    &&& w.constraints.len() >= v.constraints.len()
    &&& forall|i: int|
        0 <= i < v.constraints.len() ==> w.constraints[i] == #[trigger] v.constraints[i]
    &&& w.instances.len() >= v.instances.len()
    &&& forall|i: int| 0 <= i < v.instances.len() ==> w.instances[i] == #[trigger] v.instances[i]
}

/// Operations add to a system.
proof fn lemma_operations_extend(v: R1csV, a: nat, b: nat)
    requires
        v.use_witness,
    ensures
        v.sum(a, b).1 is Ok ==> extends(v, v.sum(a, b).0) && v.sum(a, b).0.modulus == v.modulus,
        v.product(a, b).1 is Ok ==> extends(v, v.product(a, b).0) && v.product(a, b).0.modulus
            == v.modulus,
        v.constant_sum(a, b).1 is Ok ==> extends(v, v.constant_sum(a, b).0) && v.constant_sum(
            a,
            b,
        ).0.modulus == v.modulus,
        v.constant_product(a, b).1 is Ok ==> extends(v, v.constant_product(a, b).0)
            && v.constant_product(a, b).0.modulus == v.modulus,
{
    assert forall|
        total: Answer,
        constraint: spec_fn(VariablesV) -> ConstraintV,
    |
        (#[trigger] R1csV::constrained(v.result_of(total), constraint)).1 is Ok implies extends(
        v,
        R1csV::constrained(v.result_of(total), constraint).0,
    ) && R1csV::constrained(v.result_of(total), constraint).0.modulus == v.modulus by {
        lemma_accepted(v, total, constraint);
    }
}

/// Inputs and claims add to a system.
proof fn lemma_inputs_extend(v: R1csV, x: nat)
    requires
        v.use_witness,
    ensures
        v.with_instance(x).1 is Ok ==> extends(v, v.with_instance(x).0) && v.with_instance(
            x,
        ).0.modulus == v.modulus,
        v.with_witness(Some(x)).1 is Ok ==> extends(v, v.with_witness(Some(x)).0)
            && v.with_witness(Some(x)).0.modulus == v.modulus,
        v.with_witness(None).1 is Err,
        extends(v, v.zero_claimed(x).0) && v.zero_claimed(x).0.modulus == v.modulus,
{
}

/// What a system is made over, and what it has written, lasts.
proof fn lemma_lasting(v: R1csV, r: Request)
    requires
        v.use_witness,
        written(v, r).1 is Ok,
    ensures
        extends(v, written(v, r).0),
        !(r is SetField) ==> written(v, r).0.modulus == v.modulus,
        r matches Request::SetField { modulus: bytes, .. } ==> written(v, r).0.modulus == le_value(
            bytes,
        ),
{
    match r {
        Request::SetField { modulus, degree, is_boolean } => {},
        Request::Constant(c) => {
            lemma_inputs_extend(v, c);
        },
        Request::Instance(x) => {
            lemma_inputs_extend(v, x);
        },
        Request::Witness(x) => {
            lemma_inputs_extend(
                v,
                match x {
                    Some(x) => x,
                    None => 0,
                },
            );
        },
        Request::AssertZero(a) => {
            lemma_inputs_extend(v, a);
        },
        Request::Copy(_) => {},
        Request::One => {},
        Request::MinusOne => {},
        Request::Zero => {},
        _ => {
            lemma_operation_lasts(v, r);
        },
    }
}

#[verifier::rlimit(40)]
proof fn lemma_operation_lasts(v: R1csV, r: Request)
    requires
        v.use_witness,
        written(v, r).1 is Ok,
        r is Add || r is Xor || r is Multiply || r is And || r is AddConstant || r is MulConstant
            || r is Not,
    ensures
        extends(v, written(v, r).0),
        written(v, r).0.modulus == v.modulus,
{
    match r {
        Request::Add(a, b) => {
            lemma_operations_extend(v, a, b);
        },
        Request::Xor(a, b) => {
            lemma_operations_extend(v, a, b);
        },
        Request::Multiply(a, b) => {
            lemma_operations_extend(v, a, b);
        },
        Request::And(a, b) => {
            lemma_operations_extend(v, a, b);
        },
        Request::AddConstant(a, c) => {
            lemma_operations_extend(v, a, c);
        },
        Request::MulConstant(a, c) => {
            lemma_operations_extend(v, a, c);
        },
        Request::Not(a) => {
            lemma_operations_extend(v, a, 1);
        },
        _ => {},
    }
}

/// What meets a system meets what it holds.
proof fn lemma_part_met(v: R1csV, w: R1csV, values: Map<u64, nat>, modulus: nat)
    requires
        extends(v, w),
    ensures
        meets(w, values, modulus) ==> meets(v, values, modulus),
        keeps_instance(w, values, modulus) ==> keeps_instance(v, values, modulus),
{
    if meets(w, values, modulus) {
        assert forall|i: int| 0 <= i < v.constraints.len() implies (
        #[trigger] v.constraints[i]).met_modulo(values, modulus) by {
            assert(w.constraints[i].met_modulo(values, modulus));
        }
    }
    if keeps_instance(w, values, modulus) {
        assert forall|i: int| 0 <= i < v.instances.len() implies values[(
        #[trigger] v.instances[i]).id] % modulus == le_value(v.instances[i].value) % modulus by {
            assert(w.instances[i] == v.instances[i]);
        }
    }
}

/// Each request that is accepted leaves values congruent: what it gives a variable is fixed by
/// the constraint that it writes, by the instance or by the witness.
proof fn lemma_step(v: R1csV, r: Request, values: Map<u64, nat>, modulus: nat)
    requires
        modulus > 0,
        v.use_witness,
        v.modulus == 0 || v.modulus == modulus,
        written(v, r).1 is Ok,
        values[0] == 1,
        meets(written(v, r).0, values, modulus),
        keeps_instance(written(v, r).0, values, modulus),
        r matches Request::Witness(Some(x)) ==> values[v.free_id as u64] % modulus == x % modulus,
        congruent(v.assignment, values, modulus),
    ensures
        congruent(written(v, r).0.assignment, values, modulus),
{
    let w = written(v, r).0;
    match r {
        Request::SetField { modulus: bytes, degree, is_boolean } => {
            assert(w.assignment == v.assignment.insert(0, 1));
        },
        Request::Constant(c) => {
            lemma_listed_value(v, c, values, modulus);
        },
        Request::Instance(x) => {
            lemma_listed_value(v, x, values, modulus);
        },
        Request::Witness(x) => {
            assert(x is Some);
            assert(w.assignment == v.assignment.insert(v.free_id as u64, x->Some_0));
        },
        Request::Add(a, b) => {
            lemma_needs_modulus(v, r);
            lemma_sum_fixed(v, a, b, values);
        },
        Request::Xor(a, b) => {
            lemma_needs_modulus(v, r);
            lemma_sum_fixed(v, a, b, values);
        },
        Request::Multiply(a, b) => {
            lemma_needs_modulus(v, r);
            lemma_product_fixed(v, a, b, values);
        },
        Request::And(a, b) => {
            lemma_needs_modulus(v, r);
            lemma_product_fixed(v, a, b, values);
        },
        Request::AddConstant(a, c) => {
            lemma_needs_modulus(v, r);
            lemma_constant_sum_fixed(v, a, c, values);
        },
        Request::MulConstant(a, c) => {
            lemma_needs_modulus(v, r);
            lemma_constant_product_fixed(v, a, c, values);
        },
        Request::Not(a) => {
            lemma_needs_modulus(v, r);
            lemma_constant_sum_fixed(v, a, 1, values);
        },
        _ => {
            assert(w.assignment == v.assignment);
        },
    }
}

/// No operation is accepted before there is a modulus.
proof fn lemma_needs_modulus(v: R1csV, r: Request)
    requires
        v.use_witness,
        written(v, r).1 is Ok,
        r is Add || r is Xor || r is Multiply || r is And || r is AddConstant || r is MulConstant
            || r is Not,
    ensures
        v.modulus > 0,
{
}

/// Whether values that meet what a converter has written are those of its variables.
#[verifier::opaque]
spec fn determined(
    use_correction: bool,
    values: Map<u64, nat>,
    modulus: nat,
    s: BackendState,
) -> bool {
    let v = system_of(s);
    &&& s == converter_state(true, true, use_correction, s.requests)
    &&& v.use_witness
    &&& over(s.requests, modulus) ==> {
        &&& v.modulus == 0 || v.modulus == modulus
        &&& values[0] == 1 && meets(v, values, modulus) && keeps_instance(v, values, modulus)
            && keeps_witness(use_correction, s.requests, values, modulus) ==> congruent(
            v.assignment,
            values,
            modulus,
        )
    }
}

proof fn lemma_determined(
    use_correction: bool,
    values: Map<u64, nat>,
    modulus: nat,
    s: BackendState,
    r: Request,
)
    requires
        modulus > 0,
        determined(use_correction, values, modulus, s),
        converter_answer(s, r) is Ok,
    ensures
        determined(use_correction, values, modulus, converter_after(s, r)),
{
    reveal(determined);
    let v = system_of(s);
    let t = converter_after(s, r);
    lemma_next_system(s, r);
    let w = system_of(t);
    assert(w == written(v, r).0);
    lemma_lasting(v, r);
    lemma_part_met(v, w, values, modulus);
    assert(t.requests.drop_last() =~= s.requests);
    assert(t.requests.last() == r);
    if over(t.requests, modulus) {
        assert(over(s.requests, modulus)) by {
            assert forall|i: int| 0 <= i < s.requests.len() implies (
            #[trigger] s.requests[i] matches Request::SetField { modulus: bytes, .. } ==> le_value(
                bytes,
            ) == modulus) by {
                assert(t.requests[i] == s.requests[i]);
            }
        }
        assert(t.requests[t.requests.len() - 1] == r);
        if values[0] == 1 && meets(w, values, modulus) && keeps_instance(w, values, modulus)
            && keeps_witness(use_correction, t.requests, values, modulus) {
            assert(system_of(s) == converted(true, use_correction, s.requests));
            lemma_step(v, r, values, modulus);
        }
    }
}

/// The relation between a converter that knows all values, whose variables are determined, and
/// one that knows none.
spec fn determined_apart(use_correction: bool, values: Map<u64, nat>, modulus: nat) -> Relating {
    |s1: BackendState, s2: BackendState|
        same_but_private(use_correction, s1, s2) && determined(use_correction, values, modulus, s1)
}

proof fn lemma_coupled(use_correction: bool, values: Map<u64, nat>, modulus: nat)
    requires
        modulus > 0,
    ensures
        coupled::<ToR1CSConverter>(determined_apart(use_correction, values, modulus)),
{
    let rel = determined_apart(use_correction, values, modulus);
    assert forall|s1: BackendState, s2: BackendState, r1: Request, r2: Request|
        #![trigger ToR1CSConverter::answer(s1, r1), ToR1CSConverter::answer(s2, r2)]
        #![trigger ToR1CSConverter::after(s1, r1), ToR1CSConverter::after(s2, r2)]
        rel(s1, s2) && paired(r1, r2) && ToR1CSConverter::answer(s1, r1) is Ok implies {
            &&& ToR1CSConverter::answer(s2, r2) == ToR1CSConverter::answer(s1, r1)
            &&& rel(ToR1CSConverter::after(s1, r1), ToR1CSConverter::after(s2, r2))
        } by {
        lemma_pair(use_correction, s1, s2, r1, r2);
        lemma_determined(use_correction, values, modulus, s1, r1);
    }
}

/// Messages over one field ask for no other.
proof fn lemma_over(e: EvaluatorV, s: BackendState, messages: Seq<Message>, k: nat, modulus: nat)
    requires
        same_field(messages, modulus),
        over(s.requests, modulus),
        k <= messages.len(),
    ensures
        over(with_messages::<ToR1CSConverter>(e, s, messages, k).1.requests, modulus),
    decreases messages.len() - k,
{
    if k < messages.len() {
        let message = messages[k as int];
        if message is Relation && e.error is None {
            lemma_relation_over(e, s, message->Relation_0, modulus);
        }
        let (e1, s1) = with_message::<ToR1CSConverter>(e, s, message);
        lemma_over(e1, s1, messages, k + 1, modulus);
    }
}

proof fn lemma_relation_over(e: EvaluatorV, s: BackendState, relation: Relation, modulus: nat)
    requires
        le_value(relation.header.field_characteristic@) == modulus,
        over(s.requests, modulus),
    ensures
        over(
            with_message::<ToR1CSConverter>(e, s, Message::Relation(relation)).1.requests,
            modulus,
        ),
{
    let j = |s: BackendState| over(s.requests, modulus);
    let is_boolean = relation.gate_mask & BOOL == BOOL;
    let request = Request::SetField {
        modulus: relation.header.field_characteristic@,
        degree: relation.header.field_degree,
        is_boolean,
    };
    assert forall|s: BackendState, r: Request|
        j(s) && (r is SetField ==> r == request) implies j(
        #[trigger] ToR1CSConverter::after(s, r),
    ) by {
        let t = ToR1CSConverter::after(s, r);
        if t.requests == s.requests.push(r) {
            assert forall|i: int| 0 <= i < t.requests.len() implies (
            #[trigger] t.requests[i] matches Request::SetField { modulus: bytes, .. } ==> le_value(
                bytes,
            ) == modulus) by {
                if i < s.requests.len() {
                    assert(t.requests[i] == s.requests[i]);
                }
            }
        }
    }
    assert(kept_by_gates::<ToR1CSConverter>(j));
    let s1 = ToR1CSConverter::after(s, request);
    assert(j(s1));
    keeps_gates::<ToR1CSConverter>(
        j,
        relation.gates@,
        0,
        Env {
            functions: e.functions + all_defined(relation.functions@),
            modulus: le_value(relation.header.field_characteristic@),
            is_boolean,
        },
        None,
        MAX_NESTING as nat,
        Machine {
            backend: s1,
            scope: e.scope,
            iterators: Map::empty(),
            instances: e.instances,
            witnesses: e.witnesses,
        },
    );
}

/// Whether all constants, instance values and witness values that are asked for are reduced.
pub open spec fn inputs_reduced(requests: Seq<Request>, modulus: nat) -> bool {
    forall|i: int| 0 <= i < requests.len() ==> input_reduced(#[trigger] requests[i], modulus)
}

pub open spec fn input_reduced(r: Request, modulus: nat) -> bool {
    match r {
        Request::Constant(x) => x < modulus,
        Request::Instance(x) => x < modulus,
        Request::Witness(Some(x)) => x < modulus,
        _ => true,
    }
}

/// Whether all values that variables were given are reduced.
spec fn given_reduced(v: R1csV, modulus: nat) -> bool {
    forall|id: u64| #[trigger] v.assignment.contains_key(id) ==> v.assignment[id] < modulus
}

/// Whether a step changes nothing of what variables were given, or gives one a reduced value.
spec fn reduced_step(v: R1csV, w: R1csV, modulus: nat) -> bool {
    &&& w.use_witness == v.use_witness
    &&& w.modulus == v.modulus
    &&& w.assignment == v.assignment || exists|id: u64, x: nat|
        x < modulus && w.assignment == #[trigger] v.assignment.insert(id, x)
}

proof fn lemma_results_reduced(v: R1csV)
    requires
        v.use_witness,
    ensures
        forall|total: Answer, constraint: spec_fn(VariablesV) -> ConstraintV|
            v.modulus > 0 ==> reduced_step(
                v,
                (#[trigger] R1csV::constrained(v.result_of(total), constraint)).0,
                v.modulus,
            ),
        forall|total: Answer, constraint: spec_fn(VariablesV) -> ConstraintV|
            v.modulus == 0 ==> {
                let w = (#[trigger] R1csV::constrained(v.result_of(total), constraint)).0;
                w.assignment == v.assignment && w.modulus == 0 && w.use_witness
            },
{
    assert forall|total: Answer, constraint: spec_fn(VariablesV) -> ConstraintV|
        v.modulus > 0 implies reduced_step(
        v,
        (#[trigger] R1csV::constrained(v.result_of(total), constraint)).0,
        v.modulus,
    ) by {
        let w = R1csV::constrained(v.result_of(total), constraint).0;
        let ids = v.result_of(total).1;
        if ids is Ok {
            let (out, _) = ids->Ok_0;
            let x = total->Ok_0 % v.modulus;
            assert(x < v.modulus);
            assert(w.assignment == v.assignment.insert(out, x));
        } else {
            assert(w.assignment == v.assignment);
        }
    }
}

proof fn lemma_step_reduced(v: R1csV, r: Request, modulus: nat)
    requires
        modulus > 1,
        v.use_witness,
        v.modulus == 0 || v.modulus == modulus,
        input_reduced(r, modulus),
        r matches Request::SetField { modulus: bytes, .. } ==> le_value(bytes) == modulus,
        given_reduced(v, modulus),
    ensures
        written(v, r).0.use_witness,
        written(v, r).0.modulus == 0 || written(v, r).0.modulus == modulus,
        given_reduced(written(v, r).0, modulus),
{
    match r {
        Request::SetField { modulus: bytes, degree, is_boolean } => {},
        Request::Constant(x) => {},
        Request::Instance(x) => {},
        Request::Witness(x) => {},
        Request::AssertZero(_) => {},
        Request::Copy(_) => {},
        Request::One => {},
        Request::MinusOne => {},
        Request::Zero => {},
        _ => {
            lemma_operation_reduced(v, r, modulus);
        },
    }
}

#[verifier::rlimit(40)]
proof fn lemma_operation_reduced(v: R1csV, r: Request, modulus: nat)
    requires
        v.use_witness,
        v.modulus == 0 || v.modulus == modulus,
        given_reduced(v, modulus),
        r is Add || r is Xor || r is Multiply || r is And || r is AddConstant || r is MulConstant
            || r is Not,
    ensures
        written(v, r).0.use_witness,
        written(v, r).0.modulus == v.modulus,
        given_reduced(written(v, r).0, modulus),
{
    lemma_results_reduced(v);
    let w = written(v, r).0;
    if v.modulus == 0 {
        assert(w.assignment == v.assignment);
    } else {
        assert(reduced_step(v, w, modulus));
    }
}

proof fn lemma_all_reduced(use_correction: bool, requests: Seq<Request>, modulus: nat)
    requires
        modulus > 1,
        over(requests, modulus),
        inputs_reduced(requests, modulus),
    ensures
        ({
            let v = converted(true, use_correction, requests);
            &&& v.use_witness
            &&& v.modulus == 0 || v.modulus == modulus
            &&& given_reduced(v, modulus)
        }),
    decreases requests.len(),
{
    if requests.len() > 0 {
        let before = requests.drop_last();
        assert forall|i: int| 0 <= i < before.len() implies (
        #[trigger] before[i] matches Request::SetField { modulus: bytes, .. } ==> le_value(bytes)
            == modulus) && input_reduced(before[i], modulus) by {
            assert(requests[i] == before[i]);
        }
        lemma_all_reduced(use_correction, before, modulus);
        let last = requests[requests.len() - 1];
        assert(last == requests.last());
        assert(input_reduced(last, modulus));
        lemma_step_reduced(converted(true, use_correction, before), last, modulus);
    }
}

/// What is written with all values known is what is written with none known, and values that
/// meet it are those of its variables.
proof fn lemma_all_determined(
    messages: Seq<Message>,
    modulus: nat,
    use_correction: bool,
    values: Map<u64, nat>,
)
    requires
        modulus > 0,
        same_field(messages, modulus),
        with_messages::<ToR1CSConverter>(
            fresh(),
            opened(use_correction),
            messages,
            0,
        ).0.error is None,
    ensures
        ({
            let s = with_messages::<ToR1CSConverter>(
                fresh(),
                opened(use_correction),
                messages,
                0,
            ).1;
            let v = system_of(s);
            &&& s == converter_state(true, true, use_correction, s.requests)
            &&& system_of(
                with_messages::<ToR1CSConverter>(
                    fresh(),
                    converter_state(true, false, use_correction, Seq::empty()),
                    public_part(messages, 0),
                    0,
                ).1,
            ) == public_system(v)
            &&& values[0] == 1 && meets(v, values, modulus) && keeps_instance(v, values, modulus)
                && keeps_witness(use_correction, s.requests, values, modulus) ==> congruent(
                v.assignment,
                values,
                modulus,
            )
        }),
{
    let rel = determined_apart(use_correction, values, modulus);
    let s1 = opened(use_correction);
    let s2 = converter_state(true, false, use_correction, Seq::empty());
    lemma_coupled(use_correction, values, modulus);
    assert(empty_r1cs(false, use_correction) =~= public_system(empty_r1cs(true, use_correction)));
    assert(rel(s1, s2)) by {
        reveal(same_but_private);
        reveal(determined);
    }
    public_part_is_accepted::<ToR1CSConverter>(rel, (fresh(), s1), (fresh(), s2), messages, 0);
    lemma_over(fresh(), s1, messages, 0, modulus);
    reveal(same_but_private);
    reveal(determined);
}

/// Whatever values meet the constraints of a statement come from its circuit. Take the system
/// that is written without the witness, and any values of its variables that meet all its
/// constraints modulo the characteristic, with variable zero one and the instance variables as
/// they are listed. Then evaluating the circuit in plaintext, on the instance and on the
/// witness values among these, succeeds, and each wire has, modulo the characteristic, the
/// value of its variable. The instance, the witness and the constants are to be reduced, and to
/// be written as variables without the format coming to its limits.
#[verifier::rlimit(40)]
pub proof fn constraints_hold_the_circuit(
    messages: Seq<Message>,
    modulus: nat,
    use_correction: bool,
    values: Map<u64, nat>,
)
    requires
        modulus > 1,
        same_field(messages, modulus),
        spoken_messages(circuit_dialect(modulus), messages),
        ({
            let (e, s) = with_messages::<ToR1CSConverter>(
                fresh(),
                opened(use_correction),
                messages,
                0,
            );
            let public = system_of(
                with_messages::<ToR1CSConverter>(
                    fresh(),
                    converter_state(true, false, use_correction, Seq::empty()),
                    public_part(messages, 0),
                    0,
                ).1,
            );
            &&& e.error is None
            &&& inputs_reduced(s.requests, modulus)
            &&& values[0] == 1
            &&& meets(public, values, modulus)
            &&& keeps_instance(public, values, modulus)
            &&& keeps_witness(use_correction, s.requests, values, modulus)
        }),
    ensures
        ({
            let e = with_messages::<ToR1CSConverter>(
                fresh(),
                opened(use_correction),
                messages,
                0,
            ).0;
            let given = with_messages::<PlaintextBackend>(
                fresh(),
                plain_state(0),
                messages,
                0,
            ).0;
            &&& given.error is None
            &&& given.scope.dom() == e.scope.dom()
            &&& forall|id: u64| #[trigger]
                given.scope.contains_key(id) ==> values[e.scope[id] as u64] % modulus
                    == given.scope[id] % modulus
        }),
{
    let (e, s) = with_messages::<ToR1CSConverter>(fresh(), opened(use_correction), messages, 0);
    let v = system_of(s);
    lemma_all_determined(messages, modulus, use_correction, values);
    lemma_over(fresh(), opened(use_correction), messages, 0, modulus);
    lemma_all_reduced(use_correction, s.requests, modulus);
    assert(v == converted(true, use_correction, s.requests));
    assert(public_system(v).constraints == v.constraints);
    assert(public_system(v).instances == v.instances);
    assert(meets(v, values, modulus));
    assert(keeps_instance(v, values, modulus));
    assert(congruent(v.assignment, values, modulus));
    lemma_variables_of_wires(messages, modulus, use_correction);
    let given = with_messages::<PlaintextBackend>(fresh(), plain_state(0), messages, 0).0;
    if given.error is Some {
        let i = choose|i: int|
            0 <= i < v.constraints.len() && is_claim(#[trigger] v.constraints[i])
                && v.assignment.contains_key(v.constraints[i].a.ids[0])
                && v.assignment[v.constraints[i].a.ids[0]] != 0;
        let a = v.constraints[i].a.ids[0];
        lemma_claim(a, values);
        assert(v.constraints[i].met_modulo(values, modulus));
        assert(claim(a).met_modulo(values, modulus));
        lemma_small_mod(v.assignment[a], modulus);
    }
}

} // verus!
