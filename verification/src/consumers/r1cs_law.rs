//! Writing a statement as a constraint system keeps what it states.

use crate::consumers::backend::{Answer, BackendState, Request, ZKBackend};
use crate::consumers::plaintext::{plain_answer, plain_state, PlaintextBackend};
use crate::consumers::r1cs_builder::{
    combination, empty_r1cs, longest, no_variable_text, other_size_text, padded, padded_all, pair,
    too_long_text, Given, R1csV, NO_VARIABLE,
};
use crate::consumers::semantics::{fresh, with_messages, Scope, Text};
use crate::consumers::simulation::{
    agrees, agrees_on_zero, lasting, permitted, same_field, sim_messages, simulates,
    spoken_messages, takes_field, valued, Dialect, Reading,
};
use crate::consumers::to_r1cs::{
    converter_after, converter_answer, converter_state, system_of, written, ToR1CSConverter,
};
use crate::number::{
    le_bytes, le_value, lemma_last_bits, lemma_trailing_zeros, lemma_value_of_bytes,
};
use crate::structs::message::Message;
use crate::structs::r1cs::{listed, weighed, ConstraintV, VariableV, VariablesV};
use vstd::prelude::*;

verus! {

/// The values that a constraint system gives its variables. Variable zero is one.
pub open spec fn solution(v: R1csV) -> Map<u64, nat> {
    listed(v.instances).union_prefer_right(listed(v.privates)).insert(0, 1)
}

/// Whether no value belongs to a variable that is not in use.
pub open spec fn grounded(v: R1csV) -> bool {
    &&& v.use_witness
    &&& 0 < v.free_id <= NO_VARIABLE
    &&& forall|id: u64|
        #[trigger] solution(v).contains_key(id) ==> (id as nat) < v.free_id
    &&& !listed(v.instances).contains_key(0)
    &&& !listed(v.privates).contains_key(0)
    &&& forall|id: u64| #[trigger] v.assignment.contains_key(id) ==> (id as nat) < v.free_id
    &&& v.assignment.contains_key(0) ==> v.assignment[0] == 1
}

/// Whether all values are values of another map too.
pub open spec fn part_of(values: Map<u64, nat>, more: Map<u64, nat>) -> bool {
    forall|id: u64|
        #![trigger values.contains_key(id)]
        #![trigger more[id]]
        values.contains_key(id) ==> more.contains_key(id) && more[id] == values[id]
}

/// Whether a step keeps all values and constraints.
pub open spec fn grown(v: R1csV, w: R1csV) -> bool {
    &&& grounded(w)
    &&& part_of(solution(v), solution(w))
    &&& part_of(v.assignment, w.assignment)
    &&& v.constraints.is_prefix_of(w.constraints)
    &&& v.free_id <= w.free_id
    &&& v.use_correction == w.use_correction
}

proof fn lemma_listed(list: Seq<VariableV>, id: u64, n: nat, len: nat)
    requires
        le_bytes(n).len() <= len,
    ensures
        listed(list.push(VariableV { id, value: padded(le_bytes(n), len) })) == listed(list).insert(
            id,
            n,
        ),
{
    let last = VariableV { id, value: padded(le_bytes(n), len) };
    assert(list.push(last).drop_last() =~= list);
    lemma_value_of_bytes(n);
    lemma_trailing_zeros(le_bytes(n), (len - le_bytes(n).len()) as nat);
}

proof fn lemma_allocated(v: R1csV)
    requires
        grounded(v),
    ensures
        grown(v, v.allocated().0),
        solution(v.allocated().0) == solution(v),
        v.allocated().1 matches Ok(id) ==> id == v.free_id && !solution(v).contains_key(id as u64),
{
    let w = v.allocated().0;
    assert(solution(w) == solution(v));
    assert(v.constraints.is_prefix_of(w.constraints));
    assert(part_of(solution(v), solution(w)));
    assert(grounded(w));
}

proof fn lemma_private(v: R1csV, id: u64, value: nat)
    requires
        grounded(v),
        0 < id < v.free_id,
        !solution(v).contains_key(id),
    ensures
        grown(v, v.with_private(id, value).0),
        v.with_private(id, value).1 is Ok ==> solution(v.with_private(id, value).0) == solution(
            v,
        ).insert(id, value),
        v.with_private(id, value).1 matches Err(t) ==> v.with_private(id, value).0 == v && t
            == too_long_text(),
        v.with_private(id, value).0 == (R1csV {
            privates: v.with_private(id, value).0.privates,
            ..v
        }),
{
    let (w, r) = v.with_private(id, value);
    if r is Ok {
        lemma_listed(v.privates, id, value, v.byte_len);
        assert(solution(w) =~= solution(v).insert(id, value));
    }
}

pub(crate) proof fn lemma_instance(v: R1csV, value: nat)
    requires
        grounded(v),
    ensures
        grown(v, v.with_instance(value).0),
        v.with_instance(value).1 matches Ok(id) ==> {
            let w = v.with_instance(value).0;
            &&& id == v.free_id
            &&& solution(w) == solution(v).insert(id as u64, value)
            &&& w == (R1csV {
                instances: w.instances,
                free_id: w.free_id,
                assignment: v.assignment.insert(id as u64, value),
                ..v
            })
        },
        v.with_instance(value).1 matches Err(t) ==> v.with_instance(value).0 == v && gives_up(t),
{
    let (w, r) = v.with_instance(value);
    if r is Ok {
        let id = v.free_id as u64;
        lemma_listed(v.instances, id, value, v.byte_len);
        assert(!solution(v).contains_key(id));
        assert(!listed(v.privates).contains_key(id));
        assert(solution(w) =~= solution(v).insert(id, value));
    }
}

/// Whether the words of a refusal say that the format has come to its limits.
pub open spec fn gives_up(t: Text) -> bool {
    t == too_long_text() || t == other_size_text() || t == no_variable_text()
}

pub(crate) proof fn lemma_witness(v: R1csV, value: Option<nat>)
    requires
        grounded(v),
    ensures
        grown(v, v.with_witness(value).0),
        v.with_witness(value).1 matches Ok(id) ==> {
            let w = v.with_witness(value).0;
            &&& id == v.free_id
            &&& value is Some
            &&& solution(w) == solution(v).insert(id as u64, value->Some_0)
            &&& w == (R1csV {
                privates: w.privates,
                free_id: w.free_id,
                assignment: v.assignment.insert(id as u64, value->Some_0),
                ..v
            })
        },
        v.with_witness(value).1 matches Err(t) ==> {
            let w = v.with_witness(value).0;
            &&& w == (R1csV { free_id: w.free_id, ..v })
            &&& solution(w) == solution(v)
            &&& value is Some ==> gives_up(t)
        },
{
    lemma_allocated(v);
    let (v1, r) = v.allocated();
    if r is Ok && value is Some {
        lemma_private(v1, r->Ok_0 as u64, value->Some_0);
    }
}

/// What a result with its correction leaves: where values are known, these two.
pub(crate) proof fn lemma_result(v: R1csV, total: Answer)
    requires
        grounded(v),
    ensures
        grown(v, v.result_of(total).0),
        ({
            let (w, r) = v.result_of(total);
            &&& w == (R1csV {
                privates: w.privates,
                free_id: w.free_id,
                assignment: w.assignment,
                ..v
            })
            &&& r matches Ok((out, correction)) ==> {
                let reduced = total->Ok_0 % v.modulus;
                let multiple = total->Ok_0 / v.modulus;
                &&& total is Ok && v.modulus > 0
                &&& out == v.free_id
                &&& w.assignment == v.assignment.insert(out, reduced)
                &&& solution(w) == if v.use_correction {
                    solution(v).insert(correction, multiple).insert(out, reduced)
                } else {
                    solution(v).insert(out, reduced)
                }
                &&& v.use_correction ==> correction == v.free_id + 1
            }
            &&& r matches Err(t) ==> {
                &&& w.assignment == v.assignment
                &&& total is Ok && v.modulus > 0 ==> gives_up(t)
            }
        }),
{
    lemma_allocated(v);
    let (v1, out) = v.allocated();
    if out is Ok {
        let out = out->Ok_0 as u64;
        let v2 = v.result_variables().0;
        if v.use_correction {
            lemma_allocated(v1);
        }
        if v.result_variables().1 is Ok && total is Ok && v.modulus > 0 {
            let correction = v.result_variables().1->Ok_0.1;
            let reduced = total->Ok_0 % v.modulus;
            let multiple = total->Ok_0 / v.modulus;
            if v.use_correction {
                lemma_private(v2, correction, multiple);
                let (v3, r3) = v2.with_private(correction, multiple);
                if r3 is Ok {
                    lemma_private(v3, out, reduced);
                }
            } else {
                lemma_private(v2, out, reduced);
            }
        }
    }
}

/// Whether all variables of a combination have a value.
pub open spec fn within(vars: VariablesV, values: Map<u64, nat>) -> bool {
    forall|i: int| 0 <= i < vars.ids.len() ==> values.contains_key(#[trigger] vars.ids[i])
}

/// Whether all variables of a constraint have a value.
pub open spec fn covered(c: ConstraintV, values: Map<u64, nat>) -> bool {
    within(c.a, values) && within(c.b, values) && within(c.c, values)
}

proof fn lemma_weighed(terms: Seq<VariableV>, values: Map<u64, nat>, more: Map<u64, nat>)
    requires
        part_of(values, more),
        forall|i: int| 0 <= i < terms.len() ==> values.contains_key((#[trigger] terms[i]).id),
    ensures
        weighed(terms, more) == weighed(terms, values),
    decreases terms.len(),
{
    if terms.len() > 0 {
        let front = terms.drop_last();
        assert forall|i: int| 0 <= i < front.len() implies values.contains_key(
            (#[trigger] front[i]).id,
        ) by {
            assert(terms[i] == front[i]);
        }
        lemma_weighed(front, values, more);
        assert(terms[terms.len() - 1] == terms.last());
        assert(values.contains_key(terms.last().id));
        assert(more[terms.last().id] == values[terms.last().id]);
    }
}

proof fn lemma_stable(c: ConstraintV, values: Map<u64, nat>, more: Map<u64, nat>)
    requires
        part_of(values, more),
        covered(c, values),
    ensures
        covered(c, more),
        c.met_exactly(more) == c.met_exactly(values),
        forall|m: nat| #[trigger] c.met_modulo(more, m) == c.met_modulo(values, m),
{
    lemma_weighed(c.a.split(), values, more);
    lemma_weighed(c.b.split(), values, more);
    lemma_weighed(c.c.split(), values, more);
}

/// What a combination of one variable comes to.
pub(crate) proof fn lemma_one_term(id: u64, coefficient: Seq<u8>, values: Map<u64, nat>)
    ensures
        weighed(combination(seq![id], coefficient).split(), values) == le_value(coefficient)
            * values[id],
{
    let terms = combination(seq![id], coefficient).split();
    assert(coefficient.len() / 1 == coefficient.len());
    assert(coefficient.subrange(0, coefficient.len() as int) =~= coefficient);
    assert(terms =~= seq![VariableV { id, value: coefficient }]);
    assert(terms.drop_last() =~= Seq::empty());
    reveal_with_fuel(weighed, 2);
}

/// What a combination of two variables comes to.
pub(crate) proof fn lemma_two_terms(a: u64, b: u64, x: Seq<u8>, y: Seq<u8>, values: Map<u64, nat>)
    ensures
        weighed(combination(seq![a, b], pair(x, y)).split(), values) == le_value(x) * values[a]
            + le_value(y) * values[b],
{
    let list = seq![x, y];
    let len = longest(list);
    assert(list.drop_last() =~= seq![x]);
    assert(list.drop_last().drop_last() =~= Seq::empty());
    reveal_with_fuel(longest, 3);
    reveal_with_fuel(padded_all, 3);
    assert(x.len() <= len && y.len() <= len);
    let bytes = pair(x, y);
    assert(bytes =~= padded(x, len) + padded(y, len));
    let terms = combination(seq![a, b], bytes).split();
    assert(bytes.len() == 2 * len);
    assert(bytes.len() / 2 == len);
    assert(len * 0 == 0 && len * 1 == len && len * 2 == bytes.len());
    assert(bytes.subrange(0, len as int) =~= padded(x, len));
    assert(bytes.subrange(len as int, (2 * len) as int) =~= padded(y, len));
    assert(terms =~= seq![
        VariableV { id: a, value: padded(x, len) },
        VariableV { id: b, value: padded(y, len) },
    ]);
    assert(terms.drop_last() =~= seq![VariableV { id: a, value: padded(x, len) }]);
    assert(terms.drop_last().drop_last() =~= Seq::empty());
    reveal_with_fuel(weighed, 3);
    lemma_trailing_zeros(x, (len - x.len()) as nat);
    lemma_trailing_zeros(y, (len - y.len()) as nat);
}

pub(crate) proof fn lemma_byte(b: u8)
    ensures
        le_value(seq![b]) == b,
{
    reveal_with_fuel(le_value, 2);
    assert(seq![b].drop_first() =~= Seq::empty());
}

/// What a result and its correction come to: the result before it is reduced.
proof fn lemma_unreduced(v: R1csV, out: u64, correction: u64, total: nat, values: Map<u64, nat>)
    requires
        v.modulus > 0,
        values[out] == total % v.modulus,
        v.use_correction ==> values[correction] == total / v.modulus,
    ensures
        v.use_correction ==> weighed(v.unreduced(out, correction).split(), values) == total,
        weighed(v.unreduced(out, correction).split(), values) % v.modulus == total % v.modulus,
{
    lemma_byte(1);
    let m = v.modulus;
    if v.use_correction {
        lemma_two_terms(out, correction, seq![1u8], le_bytes(m), values);
        lemma_value_of_bytes(m);
        vstd::arithmetic::div_mod::lemma_fundamental_div_mod(total as int, m as int);
        assert(1 * values[out] == values[out]);
    } else {
        lemma_one_term(out, seq![1u8], values);
        assert(1 * values[out] == values[out]);
        vstd::arithmetic::div_mod::lemma_mod_twice(total as int, m as int);
    }
}

/// The claim that a variable is zero.
pub open spec fn claim(a: u64) -> ConstraintV {
    ConstraintV {
        a: combination(seq![a], seq![1u8]),
        b: combination(seq![0u64], seq![1u8]),
        c: combination(seq![0u64], seq![0u8]),
    }
}

/// A claim is met just where its variable is zero.
pub(crate) proof fn lemma_claim(a: u64, values: Map<u64, nat>)
    requires
        values[0] == 1,
    ensures
        claim(a).met_exactly(values) <==> values[a] == 0,
        forall|m: nat|
            m > 0 ==> (#[trigger] claim(a).met_modulo(values, m) <==> values[a] % m == 0),
{
    lemma_byte(0);
    lemma_byte(1);
    lemma_one_term(a, seq![1u8], values);
    lemma_one_term(0, seq![1u8], values);
    lemma_one_term(0, seq![0u8], values);
    assert(1 * values[a] == values[a]);
    assert(values[a] * 1 == values[a]);
    assert forall|m: nat| m > 0 implies (#[trigger] claim(a).met_modulo(values, m) <==> values[a]
        % m == 0) by {
        assert(0nat % m == 0);
    }
}

/// Whether a constraint is a claim that a variable is zero.
pub open spec fn is_claim(c: ConstraintV) -> bool {
    c == claim(c.a.ids[0])
}

/// Whether values meet a constraint: exactly where reductions are written, else modulo
/// the characteristic.
pub open spec fn fulfilled(v: R1csV, c: ConstraintV, values: Map<u64, nat>) -> bool {
    if v.use_correction {
        c.met_exactly(values)
    } else {
        c.met_modulo(values, v.modulus)
    }
}

/// Whether some claim is on a variable that is not zero.
pub open spec fn violated(v: R1csV) -> bool {
    exists|i: int|
        0 <= i < v.constraints.len() && is_claim(#[trigger] v.constraints[i]) && {
            let a = v.constraints[i].a.ids[0];
            &&& solution(v).contains_key(a) && solution(v)[a] != 0
            &&& v.assignment.contains_key(a) && v.assignment[a] != 0
        }
}

/// Whether the values of a constraint system are known and meet all constraints that
/// are no claims, over the prime field of a characteristic.
spec fn consistent(v: R1csV, modulus: nat) -> bool {
    &&& grounded(v)
    &&& v.modulus == modulus
    &&& v.assignment.contains_key(0)
    &&& part_of(v.assignment, solution(v))
    &&& forall|i: int|
        0 <= i < v.constraints.len() ==> covered(#[trigger] v.constraints[i], solution(v))
    &&& forall|i: int|
        0 <= i < v.constraints.len() ==> is_claim(#[trigger] v.constraints[i]) || fulfilled(
            v,
            v.constraints[i],
            solution(v),
        )
}

/// Whether all claims are on variables that are zero.
spec fn claims_met(v: R1csV) -> bool {
    forall|i: int|
        0 <= i < v.constraints.len() && is_claim(#[trigger] v.constraints[i]) ==> solution(
            v,
        )[v.constraints[i].a.ids[0]] == 0
}

/// One more constraint that is fulfilled keeps a system consistent.
proof fn lemma_more(v: R1csV, w: R1csV, modulus: nat)
    requires
        consistent(v, modulus),
        grown(v, w),
        w.use_correction == v.use_correction,
        w.modulus == v.modulus,
        part_of(v.assignment, w.assignment),
        part_of(w.assignment, solution(w)),
        w.constraints.len() <= v.constraints.len() + 1,
        w.constraints.len() > v.constraints.len() ==> {
            &&& covered(w.constraints.last(), solution(w))
            &&& is_claim(w.constraints.last()) || fulfilled(w, w.constraints.last(), solution(w))
        },
    ensures
        consistent(w, modulus),
        w.constraints.len() == v.constraints.len() && claims_met(v) ==> claims_met(w),
        w.constraints.len() > v.constraints.len() && claims_met(v) && (is_claim(
            w.constraints.last(),
        ) ==> solution(w)[w.constraints.last().a.ids[0]] == 0) ==> claims_met(w),
{
    assert forall|i: int| 0 <= i < v.constraints.len() implies w.constraints[i]
        == #[trigger] v.constraints[i] by {
        assert(w.constraints.subrange(0, v.constraints.len() as int)[i] == w.constraints[i]);
    }
    assert forall|i: int| 0 <= i < w.constraints.len() implies covered(
        #[trigger] w.constraints[i],
        solution(w),
    ) && (is_claim(w.constraints[i]) || fulfilled(w, w.constraints[i], solution(w))) by {
        if i < v.constraints.len() {
            assert(w.constraints[i] == v.constraints[i]);
            lemma_stable(v.constraints[i], solution(v), solution(w));
        }
    }
    assert forall|i: int|
        0 <= i < v.constraints.len() && is_claim(#[trigger] v.constraints[i]) implies solution(
        w,
    )[v.constraints[i].a.ids[0]] == solution(v)[v.constraints[i].a.ids[0]] by {
        let c = v.constraints[i];
        assert(covered(c, solution(v)));
        assert(c.a.ids[0] == combination(seq![c.a.ids[0]], seq![1u8]).ids[0]);
        assert(c.a.ids.len() == 1);
        assert(solution(v).contains_key(c.a.ids[0]));
    }
    if claims_met(v) && (w.constraints.len() == v.constraints.len() || (is_claim(
        w.constraints.last(),
    ) ==> solution(w)[w.constraints.last().a.ids[0]] == 0)) {
        assert forall|i: int|
            0 <= i < w.constraints.len() && is_claim(#[trigger] w.constraints[i]) implies solution(
            w,
        )[w.constraints[i].a.ids[0]] == 0 by {
            if i < v.constraints.len() {
                assert(w.constraints[i] == v.constraints[i]);
            }
        }
    }
}

/// Whether a constraint says, of every result, that it is a total before it is reduced.
spec fn says(
    v: R1csV,
    total: nat,
    constraint: spec_fn(VariablesV) -> ConstraintV,
    result: VariablesV,
    values: Map<u64, nat>,
) -> bool {
    part_of(solution(v), values) && within(result, values) && result.ids.len() > 0 && result.ids[0]
        != 0 ==> {
        let c = constraint(result);
        let sum = weighed(result.split(), values);
        &&& covered(c, values)
        &&& !is_claim(c)
        &&& sum == total ==> c.met_exactly(values)
        &&& sum % v.modulus == total % v.modulus ==> c.met_modulo(values, v.modulus)
    }
}

/// An operation keeps a system consistent and gives its variable the value of the
/// result.
#[verifier::rlimit(40)]
proof fn lemma_operation(
    v: R1csV,
    modulus: nat,
    total: nat,
    constraint: spec_fn(VariablesV) -> ConstraintV,
)
    requires
        consistent(v, modulus),
        modulus > 0,
        forall|result: VariablesV, values: Map<u64, nat>|
            #[trigger] says(v, total, constraint, result, values),
    ensures
        ({
            let (w, r) = R1csV::constrained(v.result_of(Ok(total)), constraint);
            &&& grown(v, w)
            &&& consistent(w, modulus)
            &&& claims_met(v) ==> claims_met(w)
            &&& part_of(v.assignment, w.assignment)
            &&& w.use_correction == v.use_correction
            &&& r matches Err(t) ==> gives_up(t) && w.assignment == v.assignment
            &&& r matches Ok(id) ==> id <= u64::MAX && w.assignment == v.assignment.insert(
                id as u64,
                total % modulus,
            )
        }),
{
    lemma_result(v, Ok(total));
    let (w1, r) = v.result_of(Ok(total));
    let w = R1csV::constrained(v.result_of(Ok(total)), constraint).0;
    assert(solution(w) == solution(w1));
    assert forall|id: u64| v.assignment.contains_key(id) implies id != v.free_id by {
        assert(solution(v).contains_key(id));
    }
    match r {
        Err(_) => {},
        Ok((out, correction)) => {
            let values = solution(w);
            let result = w1.unreduced(out, correction);
            lemma_unreduced(w1, out, correction, total, values);
            assert(within(result, values));
            assert(says(v, total, constraint, result, values));
            assert(v.constraints.is_prefix_of(w.constraints));
            assert(w.constraints.last() == constraint(result));
        },
    }
    assert(part_of(w.assignment, solution(w))) by {
        assert forall|id: u64| w.assignment.contains_key(id) implies solution(w).contains_key(id)
            && solution(w)[id] == w.assignment[id] by {
            if v.assignment.contains_key(id) {
                assert(solution(v).contains_key(id));
            }
        }
    }
    lemma_more(v, w, modulus);
}

proof fn lemma_sum(v: R1csV, modulus: nat, a: u64, b: u64)
    requires
        consistent(v, modulus),
        modulus > 0,
        v.assignment.contains_key(a),
        v.assignment.contains_key(b),
    ensures
        operated(v, modulus, v.sum(a as nat, b as nat), v.assignment[a] + v.assignment[b]),
{
    let total = v.assignment[a] + v.assignment[b];
    let constraint = |result: VariablesV|
        ConstraintV {
            a: result,
            b: combination(seq![0u64], seq![1u8]),
            c: combination(seq![(a as nat) as u64, (b as nat) as u64], seq![1u8, 1u8]),
        };
    assert forall|result: VariablesV, values: Map<u64, nat>| #[trigger]
        says(v, total, constraint, result, values) by {
        lemma_byte(1);
        assert(pair(seq![1u8], seq![1u8]) =~= seq![1u8, 1u8]) by {
            reveal_with_fuel(longest, 3);
            reveal_with_fuel(padded_all, 3);
            assert(seq![seq![1u8], seq![1u8]].drop_last() =~= seq![seq![1u8]]);
            assert(seq![seq![1u8]].drop_last() =~= Seq::empty());
        }
        lemma_two_terms(a, b, seq![1u8], seq![1u8], values);
        lemma_one_term(0, seq![1u8], values);
        if part_of(solution(v), values) {
            assert(solution(v).contains_key(0));
            assert(solution(v).contains_key(a) && solution(v).contains_key(b));
            assert(values[0] == 1);
            assert(1 * values[0] == 1);
            assert(1 * values[a] == values[a] && 1 * values[b] == values[b]);
            let sum = weighed(result.split(), values);
            assert(sum * 1 == sum);
            assert(constraint(result).c.ids.len() == 2);
        }
    }
    lemma_operation(v, modulus, total, constraint);
}

/// What an operation on variables with values gives.
spec fn operated(v: R1csV, modulus: nat, given: Given, total: nat) -> bool {
    let (w, r) = given;
    &&& grown(v, w)
    &&& consistent(w, modulus)
    &&& claims_met(v) ==> claims_met(w)
    &&& part_of(v.assignment, w.assignment)
    &&& w.use_correction == v.use_correction
    &&& r matches Err(t) ==> gives_up(t) && w.assignment == v.assignment
    &&& r matches Ok(id) ==> id <= u64::MAX && w.assignment == v.assignment.insert(
        id as u64,
        total % modulus,
    )
}

proof fn lemma_product(v: R1csV, modulus: nat, a: u64, b: u64)
    requires
        consistent(v, modulus),
        modulus > 0,
        v.assignment.contains_key(a),
        v.assignment.contains_key(b),
    ensures
        operated(v, modulus, v.product(a as nat, b as nat), v.assignment[a] * v.assignment[b]),
{
    let total = v.assignment[a] * v.assignment[b];
    let constraint = |result: VariablesV|
        ConstraintV {
            a: combination(seq![(a as nat) as u64], seq![1u8]),
            b: combination(seq![(b as nat) as u64], seq![1u8]),
            c: result,
        };
    assert forall|result: VariablesV, values: Map<u64, nat>| #[trigger]
        says(v, total, constraint, result, values) by {
        lemma_byte(1);
        lemma_one_term(a, seq![1u8], values);
        lemma_one_term(b, seq![1u8], values);
        if part_of(solution(v), values) {
            assert(solution(v).contains_key(a) && solution(v).contains_key(b));
            assert(1 * values[a] == values[a] && 1 * values[b] == values[b]);
            let c = constraint(result);
            if is_claim(c) {
                assert(c.c == combination(seq![0u64], seq![0u8]));
                assert(result.ids[0] == 0);
            }
        }
    }
    lemma_operation(v, modulus, total, constraint);
}

proof fn lemma_constant_sum(v: R1csV, modulus: nat, a: u64, c: nat)
    requires
        consistent(v, modulus),
        modulus > 0,
        v.assignment.contains_key(a),
    ensures
        operated(v, modulus, v.constant_sum(a as nat, c), v.assignment[a] + c),
{
    let total = v.assignment[a] + c;
    let constraint = |result: VariablesV|
        ConstraintV {
            a: result,
            b: combination(seq![0u64], seq![1u8]),
            c: combination(seq![(a as nat) as u64, 0u64], pair(seq![1u8], le_bytes(c))),
        };
    assert forall|result: VariablesV, values: Map<u64, nat>| #[trigger]
        says(v, total, constraint, result, values) by {
        lemma_byte(1);
        lemma_value_of_bytes(c);
        lemma_two_terms(a, 0, seq![1u8], le_bytes(c), values);
        lemma_one_term(0, seq![1u8], values);
        if part_of(solution(v), values) {
            assert(solution(v).contains_key(0));
            assert(solution(v).contains_key(a));
            assert(values[0] == 1);
            assert(1 * values[0] == 1);
            assert(1 * values[a] == values[a]);
            assert(c * values[0] == c) by (nonlinear_arith)
                requires
                    values[0] == 1,
            ;
            let sum = weighed(result.split(), values);
            assert(sum * 1 == sum);
            assert(constraint(result).c.ids.len() == 2);
        }
    }
    lemma_operation(v, modulus, total, constraint);
}

proof fn lemma_constant_product(v: R1csV, modulus: nat, a: u64, c: nat)
    requires
        consistent(v, modulus),
        modulus > 0,
        v.assignment.contains_key(a),
    ensures
        operated(v, modulus, v.constant_product(a as nat, c), v.assignment[a] * c),
{
    let total = v.assignment[a] * c;
    let constraint = |result: VariablesV|
        ConstraintV {
            a: combination(seq![(a as nat) as u64], le_bytes(c)),
            b: combination(seq![0u64], seq![1u8]),
            c: result,
        };
    assert forall|result: VariablesV, values: Map<u64, nat>| #[trigger]
        says(v, total, constraint, result, values) by {
        lemma_byte(1);
        lemma_value_of_bytes(c);
        lemma_one_term(a, le_bytes(c), values);
        lemma_one_term(0, seq![1u8], values);
        if part_of(solution(v), values) {
            assert(solution(v).contains_key(0));
            assert(solution(v).contains_key(a));
            assert(values[0] == 1);
            assert(1 * values[0] == 1);
            assert(c * values[a] == total) by (nonlinear_arith)
                requires
                    total == values[a] * c,
            ;
            assert((c * values[a]) * 1 == total);
            if is_claim(constraint(result)) {
                assert(constraint(result).c == combination(seq![0u64], seq![0u8]));
                assert(result.ids[0] == 0);
            }
        }
    }
    lemma_operation(v, modulus, total, constraint);
}

/// A claim on a variable with a value keeps a system consistent.
proof fn lemma_zero_claimed(v: R1csV, modulus: nat, a: u64)
    requires
        consistent(v, modulus),
        v.assignment.contains_key(a),
    ensures
        ({
            let w = v.zero_claimed(a as nat).0;
            &&& grown(v, w)
            &&& consistent(w, modulus)
            &&& claims_met(v) && v.assignment[a] == 0 ==> claims_met(w)
            &&& v.assignment[a] != 0 ==> violated(w)
        }),
{
    let w = v.zero_claimed(a as nat).0;
    assert(solution(w) == solution(v));
    assert(v.constraints.is_prefix_of(w.constraints));
    assert(solution(v).contains_key(a) && solution(v).contains_key(0));
    assert(w.constraints.last() == claim(a));
    assert(claim(a).a.ids[0] == a);
    lemma_more(v, w, modulus);
    if v.assignment[a] != 0 {
        let i = w.constraints.len() - 1;
        assert(is_claim(w.constraints[i]));
    }
}

proof fn lemma_sums_grow(v: R1csV, a: nat, b: nat)
    requires
        grounded(v),
    ensures
        grown(v, v.sum(a, b).0),
{
    lemma_constrained(
        v,
        sum_of(
            v.value(a, "Add(a): Value does not exist."@),
            v.value(b, "Add(b): Value does not exist."@),
        ),
    );
}

proof fn lemma_products_grow(v: R1csV, a: nat, b: nat)
    requires
        grounded(v),
    ensures
        grown(v, v.product(a, b).0),
{
    lemma_constrained(
        v,
        product_of(
            v.value(a, "Multiply(a): Value does not exist."@),
            v.value(b, "Multiply(b): Value does not exist."@),
        ),
    );
}

proof fn lemma_constants_grow(v: R1csV, a: nat, c: nat)
    requires
        grounded(v),
    ensures
        grown(v, v.constant_sum(a, c).0),
        grown(v, v.constant_product(a, c).0),
{
    lemma_constrained(v, sum_of(v.value(a, "AddConstant: Value does not exist."@), Ok(c)));
    lemma_constrained(v, product_of(v.value(a, "MulConstant: Value does not exist."@), Ok(c)));
}

/// Every request keeps all values and constraints.
pub(crate) proof fn lemma_grown(v: R1csV, r: Request)
    requires
        grounded(v),
    ensures
        grown(v, written(v, r).0),
{
    let w = written(v, r).0;
    match r {
        Request::SetField { modulus, degree, is_boolean } => {
            assert(solution(w) == solution(v));
            assert(v.constraints.is_prefix_of(w.constraints));
        },
        Request::Constant(c) => {
            lemma_instance(v, c);
        },
        Request::Instance(c) => {
            lemma_instance(v, c);
        },
        Request::Witness(x) => {
            lemma_witness(v, x);
        },
        Request::AssertZero(a) => {
            assert(solution(w) == solution(v));
            assert(v.constraints.is_prefix_of(w.constraints));
        },
        Request::Add(a, b) => {
            lemma_sums_grow(v, a, b);
        },
        Request::Xor(a, b) => {
            lemma_sums_grow(v, a, b);
        },
        Request::Multiply(a, b) => {
            lemma_products_grow(v, a, b);
        },
        Request::And(a, b) => {
            lemma_products_grow(v, a, b);
        },
        Request::AddConstant(a, c) => {
            lemma_constants_grow(v, a, c);
        },
        Request::MulConstant(a, c) => {
            lemma_constants_grow(v, a, c);
        },
        Request::Not(a) => {
            lemma_constants_grow(v, a, 1);
        },
        _ => {
            assert(w == v);
            assert(v.constraints.is_prefix_of(w.constraints));
        },
    }
}

/// No request makes an unmet claim good.
proof fn lemma_violated(v: R1csV, r: Request)
    requires
        grounded(v),
        violated(v),
    ensures
        grounded(written(v, r).0),
        violated(written(v, r).0),
{
    let w = written(v, r).0;
    lemma_grown(v, r);
    let i = choose|i: int|
        0 <= i < v.constraints.len() && is_claim(#[trigger] v.constraints[i]) && {
            let a = v.constraints[i].a.ids[0];
            &&& solution(v).contains_key(a) && solution(v)[a] != 0
            &&& v.assignment.contains_key(a) && v.assignment[a] != 0
        };
    assert(w.constraints.subrange(0, v.constraints.len() as int)[i] == w.constraints[i]);
    assert(is_claim(w.constraints[i]));
}

proof fn lemma_constrained(v: R1csV, total: Answer)
    requires
        grounded(v),
    ensures
        forall|constraint: spec_fn(VariablesV) -> ConstraintV|
            grown(v, (#[trigger] R1csV::constrained(v.result_of(total), constraint)).0),
{
    lemma_result(v, total);
    let w1 = v.result_of(total).0;
    assert forall|constraint: spec_fn(VariablesV) -> ConstraintV| grown(
        v,
        (#[trigger] R1csV::constrained(v.result_of(total), constraint)).0,
    ) by {
        let w = R1csV::constrained(v.result_of(total), constraint).0;
        assert(solution(w) == solution(w1));
        assert(v.constraints.is_prefix_of(w.constraints));
    }
}

/// The sum of two values, where both are there.
spec fn sum_of(x: Answer, y: Answer) -> Answer {
    match x {
        Err(t) => Err(t),
        Ok(x) => match y {
            Err(t) => Err(t),
            Ok(y) => Ok(x + y),
        },
    }
}

/// The product of two values, where both are there.
spec fn product_of(x: Answer, y: Answer) -> Answer {
    match x {
        Err(t) => Err(t),
        Ok(x) => match y {
            Err(t) => Err(t),
            Ok(y) => Ok(x * y),
        },
    }
}

/// Whether a converter that knows all values goes on.
spec fn running(s: BackendState, use_correction: bool) -> bool {
    s == converter_state(true, true, use_correction, s.requests)
}

/// What a circuit may ask for that is to be written as a constraint system: arithmetic
/// over any field, and Boolean operations on bits over the field of two.
pub open spec fn circuit_dialect(modulus: nat) -> Dialect {
    Dialect { boolean: modulus == 2, input: |x: nat| modulus == 2 ==> x < 2 }
}

/// Whether all values are bits, over the field of two.
spec fn bits(values: Map<u64, nat>, modulus: nat) -> bool {
    modulus == 2 ==> forall|id: u64| values.contains_key(id) ==> #[trigger] values[id] < 2
}

/// How the states of a converter are read.
spec fn converter_reading(modulus: nat, use_correction: bool) -> Reading {
    Reading {
        modulus,
        all: false,
        dialect: circuit_dialect(modulus),
        value: |s: BackendState, w: nat|
            {
                let v = system_of(s);
                if w <= u64::MAX && v.assignment.contains_key(w as u64) {
                    Some(v.assignment[w as u64])
                } else {
                    None
                }
            },
        good: |s: BackendState|
            {
                let v = system_of(s);
                &&& running(s, use_correction)
                &&& v.use_correction == use_correction
                &&& consistent(v, modulus)
                &&& claims_met(v)
                &&& bits(v.assignment, modulus)
            },
        bad: |s: BackendState|
            running(s, use_correction) && grounded(system_of(s)) && violated(system_of(s)),
        gave_up: |t: Text| gives_up(t),
    }
}

proof fn lemma_next(s: BackendState, r: Request, use_correction: bool)
    requires
        running(s, use_correction),
    ensures
        running(converter_after(s, r), use_correction),
        system_of(converter_after(s, r)) == written(system_of(s), r).0,
        converter_answer(s, r) == written(system_of(s), r).1,
{
    let t = converter_after(s, r);
    assert(t.requests.drop_last() =~= s.requests);
    assert(t.requests.last() == r);
}

/// An operation does what it does in plaintext.
#[verifier::rlimit(40)]
proof fn lemma_operated(
    modulus: nat,
    use_correction: bool,
    s: BackendState,
    r: Request,
    total: nat,
)
    requires
        modulus > 0,
        (converter_reading(modulus, use_correction).good)(s),
        operated(system_of(s), modulus, written(system_of(s), r), total),
    ensures
        agrees(
            converter_reading(modulus, use_correction),
            s,
            Ok(total % modulus),
            (converter_after(s, r), converter_answer(s, r)),
        ),
{
    lemma_next(s, r, use_correction);
    let read = converter_reading(modulus, use_correction);
    let v = system_of(s);
    let t = converter_after(s, r);
    let (w, given) = written(v, r);
    assert(bits(w.assignment, modulus));
    assert((read.good)(t));
    assert(lasting(read, s, t));
}

/// An input does what it does in plaintext.
#[verifier::rlimit(40)]
proof fn lemma_taken(modulus: nat, use_correction: bool, s: BackendState, r: Request, x: nat)
    requires
        modulus > 0,
        (converter_reading(modulus, use_correction).good)(s),
        modulus == 2 ==> x < 2,
        r == Request::Constant(x) || r == Request::Instance(x) || r == Request::Witness(Some(x)),
    ensures
        agrees(
            converter_reading(modulus, use_correction),
            s,
            Ok(x),
            (converter_after(s, r), converter_answer(s, r)),
        ),
{
    lemma_next(s, r, use_correction);
    let read = converter_reading(modulus, use_correction);
    let v = system_of(s);
    let t = converter_after(s, r);
    let (w, given) = written(v, r);
    lemma_instance(v, x);
    lemma_witness(v, Some(x));
    lemma_input(v, w, modulus, given, x);
    assert(bits(w.assignment, modulus));
    assert((read.good)(t));
    assert(lasting(read, s, t));
}

/// The values of the variables of a request, where all have one.
proof fn lemma_valued(modulus: nat, use_correction: bool, s: BackendState, r: Request)
    requires
        valued(converter_reading(modulus, use_correction), s, r) is Some,
    ensures
        ({
            let on = system_of(s).assignment;
            let q = valued(converter_reading(modulus, use_correction), s, r)->Some_0;
            match r {
                Request::Add(a, b) => paired(on, a, b) && q == Request::Add(
                    on[a as u64],
                    on[b as u64],
                ),
                Request::Multiply(a, b) => paired(on, a, b) && q == Request::Multiply(
                    on[a as u64],
                    on[b as u64],
                ),
                Request::And(a, b) => paired(on, a, b) && q == Request::And(
                    on[a as u64],
                    on[b as u64],
                ),
                Request::Xor(a, b) => paired(on, a, b) && q == Request::Xor(
                    on[a as u64],
                    on[b as u64],
                ),
                Request::AddConstant(a, c) => paired(on, a, a) && q == Request::AddConstant(
                    on[a as u64],
                    c,
                ),
                Request::MulConstant(a, c) => paired(on, a, a) && q == Request::MulConstant(
                    on[a as u64],
                    c,
                ),
                Request::Not(a) => paired(on, a, a) && q == Request::Not(on[a as u64]),
                Request::AssertZero(a) => paired(on, a, a) && q == Request::AssertZero(
                    on[a as u64],
                ),
                Request::Copy(a) => paired(on, a, a) && q == Request::Copy(on[a as u64]),
                _ => q == r && (r is Constant || r is Instance || r is Witness),
            }
        }),
{
}

/// Whether two variables have a value.
spec fn paired(on: Map<u64, nat>, a: nat, b: nat) -> bool {
    a <= u64::MAX && b <= u64::MAX && on.contains_key(a as u64) && on.contains_key(b as u64)
}

/// Whether a request is answered as in plaintext.
spec fn replies(modulus: nat, use_correction: bool, s: BackendState, r: Request) -> bool {
    let read = converter_reading(modulus, use_correction);
    agrees(
        read,
        s,
        plain_answer(modulus, valued(read, s, r)->Some_0),
        (converter_after(s, r), converter_answer(s, r)),
    )
}

#[verifier::rlimit(40)]
proof fn lemma_reply_add(modulus: nat, use_correction: bool, s: BackendState, a: nat, b: nat)
    requires
        modulus > 0,
        (converter_reading(modulus, use_correction).good)(s),
        valued(converter_reading(modulus, use_correction), s, Request::Add(a, b)) is Some,
    ensures
        replies(modulus, use_correction, s, Request::Add(a, b)),
{
    let on = system_of(s).assignment;
    lemma_valued(modulus, use_correction, s, Request::Add(a, b));
    lemma_sum(system_of(s), modulus, a as u64, b as u64);
    lemma_operated(modulus, use_correction, s, Request::Add(a, b), on[a as u64] + on[b as u64]);
}

#[verifier::rlimit(40)]
proof fn lemma_reply_multiply(modulus: nat, use_correction: bool, s: BackendState, a: nat, b: nat)
    requires
        modulus > 0,
        (converter_reading(modulus, use_correction).good)(s),
        valued(converter_reading(modulus, use_correction), s, Request::Multiply(a, b)) is Some,
    ensures
        replies(modulus, use_correction, s, Request::Multiply(a, b)),
{
    let on = system_of(s).assignment;
    lemma_valued(modulus, use_correction, s, Request::Multiply(a, b));
    lemma_product(system_of(s), modulus, a as u64, b as u64);
    let total = on[a as u64] * on[b as u64];
    lemma_operated(modulus, use_correction, s, Request::Multiply(a, b), total);
}

#[verifier::rlimit(40)]
proof fn lemma_reply_xor(modulus: nat, use_correction: bool, s: BackendState, a: nat, b: nat)
    requires
        modulus > 0,
        (converter_reading(modulus, use_correction).good)(s),
        modulus == 2,
        valued(converter_reading(modulus, use_correction), s, Request::Xor(a, b)) is Some,
    ensures
        replies(modulus, use_correction, s, Request::Xor(a, b)),
{
    let on = system_of(s).assignment;
    lemma_valued(modulus, use_correction, s, Request::Xor(a, b));
    lemma_sum(system_of(s), modulus, a as u64, b as u64);
    lemma_last_bits(on[a as u64], on[b as u64]);
    lemma_operated(modulus, use_correction, s, Request::Xor(a, b), on[a as u64] + on[b as u64]);
}

#[verifier::rlimit(40)]
proof fn lemma_reply_and(modulus: nat, use_correction: bool, s: BackendState, a: nat, b: nat)
    requires
        modulus > 0,
        (converter_reading(modulus, use_correction).good)(s),
        modulus == 2,
        valued(converter_reading(modulus, use_correction), s, Request::And(a, b)) is Some,
    ensures
        replies(modulus, use_correction, s, Request::And(a, b)),
{
    let on = system_of(s).assignment;
    lemma_valued(modulus, use_correction, s, Request::And(a, b));
    lemma_product(system_of(s), modulus, a as u64, b as u64);
    lemma_last_bits(on[a as u64], on[b as u64]);
    lemma_operated(modulus, use_correction, s, Request::And(a, b), on[a as u64] * on[b as u64]);
}

#[verifier::rlimit(40)]
proof fn lemma_reply_add_constant(
    modulus: nat,
    use_correction: bool,
    s: BackendState,
    a: nat,
    c: nat,
)
    requires
        modulus > 0,
        (converter_reading(modulus, use_correction).good)(s),
        valued(converter_reading(modulus, use_correction), s, Request::AddConstant(a, c)) is Some,
    ensures
        replies(modulus, use_correction, s, Request::AddConstant(a, c)),
{
    let on = system_of(s).assignment;
    lemma_valued(modulus, use_correction, s, Request::AddConstant(a, c));
    lemma_constant_sum(system_of(s), modulus, a as u64, c);
    lemma_operated(modulus, use_correction, s, Request::AddConstant(a, c), on[a as u64] + c);
}

#[verifier::rlimit(40)]
proof fn lemma_reply_mul_constant(
    modulus: nat,
    use_correction: bool,
    s: BackendState,
    a: nat,
    c: nat,
)
    requires
        modulus > 0,
        (converter_reading(modulus, use_correction).good)(s),
        valued(converter_reading(modulus, use_correction), s, Request::MulConstant(a, c)) is Some,
    ensures
        replies(modulus, use_correction, s, Request::MulConstant(a, c)),
{
    let on = system_of(s).assignment;
    lemma_valued(modulus, use_correction, s, Request::MulConstant(a, c));
    lemma_constant_product(system_of(s), modulus, a as u64, c);
    lemma_operated(modulus, use_correction, s, Request::MulConstant(a, c), on[a as u64] * c);
}

proof fn lemma_bit(modulus: nat, use_correction: bool, s: BackendState, a: u64)
    requires
        modulus == 2,
        (converter_reading(modulus, use_correction).good)(s),
        system_of(s).assignment.contains_key(a),
    ensures
        system_of(s).assignment[a] < 2,
{
}

proof fn lemma_noted(modulus: nat, use_correction: bool, s: BackendState, a: u64)
    requires
        modulus > 0,
        (converter_reading(modulus, use_correction).good)(s),
        system_of(s).assignment.contains_key(a),
    ensures
        agrees(
            converter_reading(modulus, use_correction),
            s,
            Ok((system_of(s).assignment[a] + 1) % modulus),
            (
                converter_after(s, Request::Not(a as nat)),
                converter_answer(s, Request::Not(a as nat)),
            ),
        ),
{
    let v = system_of(s);
    lemma_constant_sum(v, modulus, a, 1);
    assert(written(v, Request::Not(a as nat)) == v.constant_sum(a as nat, 1));
    lemma_operated(
        modulus,
        use_correction,
        s,
        Request::Not(a as nat),
        v.assignment[a] + 1,
    );
}

#[verifier::rlimit(40)]
proof fn lemma_reply_not(modulus: nat, use_correction: bool, s: BackendState, a: nat)
    requires
        modulus == 2,
        (converter_reading(modulus, use_correction).good)(s),
        valued(converter_reading(modulus, use_correction), s, Request::Not(a)) is Some,
    ensures
        replies(modulus, use_correction, s, Request::Not(a)),
{
    lemma_valued(modulus, use_correction, s, Request::Not(a));
    let x = system_of(s).assignment[a as u64];
    lemma_bit(modulus, use_correction, s, a as u64);
    lemma_noted(modulus, use_correction, s, a as u64);
    lemma_flip(modulus, x);
}

proof fn lemma_flip(modulus: nat, x: nat)
    requires
        modulus == 2,
        x < 2,
    ensures
        plain_answer(modulus, Request::Not(x)) == Ok::<nat, Text>((x + 1) % modulus),
{
    assert(x == 0 || x == 1);
}

/// One request does what it does in plaintext.
#[verifier::rlimit(40)]
proof fn lemma_reply(modulus: nat, use_correction: bool, s: BackendState, r: Request)
    requires
        modulus > 0,
        (converter_reading(modulus, use_correction).good)(s),
        permitted(converter_reading(modulus, use_correction), r),
        valued(converter_reading(modulus, use_correction), s, r) is Some,
        !(r is AssertZero),
    ensures
        replies(modulus, use_correction, s, r),
{
    lemma_valued(modulus, use_correction, s, r);
    match r {
        Request::Constant(x) => {
            lemma_taken(modulus, use_correction, s, r, x);
        },
        Request::Instance(x) => {
            lemma_taken(modulus, use_correction, s, r, x);
        },
        Request::Witness(Some(x)) => {
            lemma_taken(modulus, use_correction, s, r, x);
        },
        Request::Witness(None) => {
            lemma_missing(modulus, use_correction, s);
        },
        Request::Copy(a) => {
            lemma_copied(modulus, use_correction, s, a);
        },
        Request::Add(a, b) => {
            lemma_reply_add(modulus, use_correction, s, a, b);
        },
        Request::Multiply(a, b) => {
            lemma_reply_multiply(modulus, use_correction, s, a, b);
        },
        Request::AddConstant(a, c) => {
            lemma_reply_add_constant(modulus, use_correction, s, a, c);
        },
        Request::MulConstant(a, c) => {
            lemma_reply_mul_constant(modulus, use_correction, s, a, c);
        },
        Request::And(a, b) => {
            lemma_reply_and(modulus, use_correction, s, a, b);
        },
        Request::Xor(a, b) => {
            lemma_reply_xor(modulus, use_correction, s, a, b);
        },
        Request::Not(a) => {
            lemma_reply_not(modulus, use_correction, s, a);
        },
        _ => {},
    }
}

proof fn lemma_missing(modulus: nat, use_correction: bool, s: BackendState)
    requires
        (converter_reading(modulus, use_correction).good)(s),
    ensures
        converter_answer(s, Request::Witness(None)) is Err,
{
    lemma_next(s, Request::Witness(None), use_correction);
    lemma_witness(system_of(s), None);
}

proof fn lemma_copied(modulus: nat, use_correction: bool, s: BackendState, a: nat)
    requires
        (converter_reading(modulus, use_correction).good)(s),
        paired(system_of(s).assignment, a, a),
    ensures
        agrees(
            converter_reading(modulus, use_correction),
            s,
            Ok(system_of(s).assignment[a as u64]),
            (converter_after(s, Request::Copy(a)), converter_answer(s, Request::Copy(a))),
        ),
{
    lemma_next(s, Request::Copy(a), use_correction);
}

/// A claim is refused, in plaintext, just where it is not met.
proof fn lemma_claimed(modulus: nat, use_correction: bool, s: BackendState, a: nat)
    requires
        (converter_reading(modulus, use_correction).good)(s),
        valued(
            converter_reading(modulus, use_correction),
            s,
            Request::AssertZero(a),
        ) is Some,
    ensures
        agrees_on_zero(
            converter_reading(modulus, use_correction),
            s,
            plain_answer(
                modulus,
                valued(
                    converter_reading(modulus, use_correction),
                    s,
                    Request::AssertZero(a),
                )->Some_0,
            ),
            (
                converter_after(s, Request::AssertZero(a)),
                converter_answer(s, Request::AssertZero(a)),
            ),
        ),
{
    let read = converter_reading(modulus, use_correction);
    let r = Request::AssertZero(a);
    lemma_valued(modulus, use_correction, s, r);
    lemma_next(s, r, use_correction);
    lemma_zero_claimed(system_of(s), modulus, a as u64);
    let t = converter_after(s, r);
    assert(system_of(t).assignment == system_of(s).assignment);
    assert(lasting(read, s, t));
}

/// A new instance or private variable keeps a system consistent.
proof fn lemma_input(v: R1csV, w: R1csV, modulus: nat, given: Answer, x: nat)
    requires
        consistent(v, modulus),
        claims_met(v),
        grown(v, w),
        w.use_correction == v.use_correction,
        w.modulus == v.modulus,
        w.constraints == v.constraints,
        given matches Ok(id) ==> {
            &&& id == v.free_id
            &&& solution(w) == solution(v).insert(id as u64, x)
            &&& w.assignment == v.assignment.insert(id as u64, x)
        },
        given is Err ==> w.assignment == v.assignment,
    ensures
        consistent(w, modulus),
        claims_met(w),
        part_of(v.assignment, w.assignment),
{
    assert forall|id: u64| v.assignment.contains_key(id) implies id != v.free_id by {
        assert(solution(v).contains_key(id));
    }
    assert(part_of(w.assignment, solution(w))) by {
        assert forall|id: u64| w.assignment.contains_key(id) implies solution(w).contains_key(id)
            && solution(w)[id] == w.assignment[id] by {
            if v.assignment.contains_key(id) {
                assert(solution(v).contains_key(id));
            }
        }
    }
    lemma_more(v, w, modulus);
}

proof fn lemma_stays_bad(modulus: nat, use_correction: bool, s: BackendState, r: Request)
    requires
        (converter_reading(modulus, use_correction).bad)(s),
    ensures
        (converter_reading(modulus, use_correction).bad)(converter_after(s, r)),
{
    lemma_next(s, r, use_correction);
    lemma_violated(system_of(s), r);
}

proof fn lemma_answers(modulus: nat, use_correction: bool, s: BackendState)
    requires
        modulus > 0,
        (converter_reading(modulus, use_correction).good)(s),
    ensures
        converter_answer(s, Request::One) == Ok::<nat, Text>(1),
        converter_answer(s, Request::Zero) == Ok::<nat, Text>(0),
        converter_answer(s, Request::MinusOne) == Ok::<nat, Text>((modulus - 1) as nat),
{
}

#[verifier::rlimit(40)]
#[verifier::spinoff_prover]
proof fn lemma_converter_simulates(modulus: nat, use_correction: bool)
    requires
        modulus > 0,
    ensures
        simulates::<ToR1CSConverter>(converter_reading(modulus, use_correction)),
{
    let read = converter_reading(modulus, use_correction);
    let m = read.modulus;
    assert forall|s: BackendState, r: Request| (read.bad)(s) implies (read.bad)(
        #[trigger] ToR1CSConverter::after(s, r),
    ) by {
        lemma_stays_bad(modulus, use_correction, s, r);
    }
    assert forall|s: BackendState| (read.good)(s) implies {
        &&& ToR1CSConverter::answer(s, Request::One) == Ok::<nat, Text>(1)
        &&& ToR1CSConverter::answer(s, Request::Zero) == Ok::<nat, Text>(0)
        &&& #[trigger] ToR1CSConverter::answer(s, Request::MinusOne) == Ok::<nat, Text>(
            (m - 1) as nat,
        )
    } by {
        lemma_answers(modulus, use_correction, s);
    }
    assert forall|s: BackendState, r: Request|
        (read.good)(s) && permitted(read, r) && valued(read, s, r) is Some implies {
        let plain = plain_answer(m, valued(read, s, r)->Some_0);
        let reply = (#[trigger] ToR1CSConverter::after(s, r), ToR1CSConverter::answer(s, r));
        if r is AssertZero {
            agrees_on_zero(read, s, plain, reply)
        } else {
            agrees(read, s, plain, reply)
        }
    } by {
        if r is AssertZero {
            lemma_claimed(modulus, use_correction, s, r->AssertZero_0);
        } else {
            lemma_reply(modulus, use_correction, s, r);
        }
    }
}

/// The state of a converter that has got nothing and is to know all values.
pub open spec fn opened(use_correction: bool) -> BackendState {
    converter_state(true, true, use_correction, Seq::empty())
}

proof fn lemma_converter_takes_field(modulus: nat, use_correction: bool)
    requires
        modulus > 0,
    ensures
        takes_field::<ToR1CSConverter>(
            converter_reading(modulus, use_correction),
            opened(use_correction),
        ),
{
    let read = converter_reading(modulus, use_correction);
    assert forall|s: BackendState, bytes: Seq<u8>, is_boolean: bool|
        ((read.good)(s) || s == opened(use_correction)) && le_value(bytes) == modulus implies {
        let r = Request::SetField { modulus: bytes, degree: 1, is_boolean };
        let t = #[trigger] ToR1CSConverter::after(
            s,
            Request::SetField { modulus: bytes, degree: 1, is_boolean },
        );
        &&& ToR1CSConverter::answer(
            s,
            Request::SetField { modulus: bytes, degree: 1, is_boolean },
        ) is Ok
        &&& (read.good)(t)
        &&& (read.good)(s) ==> lasting(read, s, t)
    } by {
        let r = Request::SetField { modulus: bytes, degree: 1, is_boolean };
        lemma_next(s, r, use_correction);
        let v = system_of(s);
        let w = written(v, r).0;
        assert(solution(w) == solution(v));
        assert(v.constraints.is_prefix_of(w.constraints));
        assert(solution(w).contains_key(0) && solution(w)[0] == 1);
        if (read.good)(s) {
            assert(solution(v).contains_key(0));
            assert(v.assignment[0] == 1);
            assert(w.assignment =~= v.assignment);
        } else {
            assert(v == empty_r1cs(true, use_correction));
            assert(w.assignment =~= Map::empty().insert(0u64, 1nat));
            assert(listed(v.instances) =~= Map::empty());
            assert(listed(v.privates) =~= Map::empty());
        }
    }
}

/// Whether the values of a constraint system meet all its constraints as natural
/// numbers.
pub open spec fn all_met_exactly(v: R1csV) -> bool {
    forall|i: int|
        0 <= i < v.constraints.len() ==> (#[trigger] v.constraints[i]).met_exactly(solution(v))
}

/// Whether the values of a constraint system meet all its constraints modulo a number.
pub open spec fn all_met_modulo(v: R1csV, modulus: nat) -> bool {
    forall|i: int|
        0 <= i < v.constraints.len() ==> (#[trigger] v.constraints[i]).met_modulo(
            solution(v),
            modulus,
        )
}

/// Whether all values of a constraint system are reduced by a modulus.
pub open spec fn all_reduced(v: R1csV, modulus: nat) -> bool {
    forall|id: u64| #[trigger] solution(v).contains_key(id) ==> solution(v)[id] < modulus
}

/// Whether variables have the values that wires have in plaintext, each variable being
/// the number that its wire has in the converter.
pub open spec fn same_values(v: R1csV, variables: Scope, wires: Scope) -> bool {
    forall|id: u64| #[trigger]
        wires.contains_key(id) ==> {
            &&& variables.contains_key(id)
            &&& solution(v).contains_key(variables[id] as u64)
            &&& solution(v)[variables[id] as u64] == wires[id]
        }
}

/// A statement is written as a constraint system wherever evaluating it in plaintext
/// succeeds, unless a value is too long or no variable is left. The system then states
/// the same. Where reductions are written, its own values meet all constraints, as
/// natural numbers, just where evaluating the statement succeeds, and so they do modulo
/// any other number. Where they are not, its values meet all constraints modulo the
/// characteristic wherever evaluating succeeds, and only there if they are all reduced.
/// All relations are to be over one prime field, arithmetic or, where all values are
/// bits, Boolean.
#[verifier::rlimit(40)]
pub proof fn r1cs_keeps_meaning(messages: Seq<Message>, modulus: nat, use_correction: bool)
    requires
        modulus > 0,
        same_field(messages, modulus),
        spoken_messages(circuit_dialect(modulus), messages),
    ensures
        ({
            let (e, s) = with_messages::<ToR1CSConverter>(
                fresh(),
                opened(use_correction),
                messages,
                0,
            );
            let v = system_of(s);
            let given = with_messages::<PlaintextBackend>(
                fresh(),
                plain_state(0),
                messages,
                0,
            ).0;
            &&& given.error is None ==> e.error is None || gives_up(e.error->Some_0)
            &&& e.error is None ==> {
                &&& use_correction ==> (given.error is None <==> all_met_exactly(v))
                &&& given.error is None ==> all_met_modulo(v, modulus)
                &&& use_correction && given.error is None ==> forall|larger: nat|
                    #[trigger] all_met_modulo(v, larger)
                &&& all_reduced(v, modulus) && all_met_modulo(v, modulus) ==> given.error is None
                &&& given.error is None ==> same_values(v, e.scope, given.scope)
            }
        }),
{
    let read = converter_reading(modulus, use_correction);
    let (e, s) = with_messages::<ToR1CSConverter>(fresh(), opened(use_correction), messages, 0);
    let v = system_of(s);
    let given = with_messages::<PlaintextBackend>(fresh(), plain_state(0), messages, 0);
    lemma_converter_simulates(modulus, use_correction);
    lemma_converter_takes_field(modulus, use_correction);
    assert(fresh().scope.dom() =~= Set::<u64>::empty());
    sim_messages::<ToR1CSConverter>(
        read,
        opened(use_correction),
        (fresh(), plain_state(0)),
        (fresh(), opened(use_correction)),
        messages,
        0,
    );
    if e.error is None {
        if given.0.error is None {
            if (read.good)(s) {
                lemma_all_met(v, modulus);
                assert(same_values(v, e.scope, given.0.scope)) by {
                    assert forall|id: u64| #[trigger] given.0.scope.contains_key(id) implies {
                        &&& e.scope.contains_key(id)
                        &&& solution(v).contains_key(e.scope[id] as u64)
                        &&& solution(v)[e.scope[id] as u64] == given.0.scope[id]
                    } by {
                        assert(e.scope.dom().contains(id));
                        assert((read.value)(s, e.scope[id]) == Some(given.0.scope[id]));
                        assert(v.assignment.contains_key(e.scope[id] as u64));
                    }
                }
            } else {
                assert(v == empty_r1cs(true, use_correction));
                assert(same_values(v, e.scope, given.0.scope)) by {
                    assert forall|id: u64| given.0.scope.contains_key(id) implies false by {
                        assert(e.scope.dom().contains(id));
                    }
                }
            }
        } else {
            lemma_some_unmet(v, modulus);
        }
    }
}

/// Whether variables were given, while a system was written, the values that wires have in
/// plaintext.
pub open spec fn values_given(v: R1csV, variables: Scope, wires: Scope) -> bool {
    &&& variables.dom() == wires.dom()
    &&& forall|id: u64| #[trigger]
        wires.contains_key(id) ==> {
            &&& variables[id] <= u64::MAX
            &&& v.assignment.contains_key(variables[id] as u64)
            &&& v.assignment[variables[id] as u64] == wires[id]
        }
}

/// Where evaluating in plaintext is refused, a system that is written claims of a variable
/// that is not zero that it is. Else the variables of wires are given the values of these.
#[verifier::rlimit(40)]
pub(crate) proof fn lemma_variables_of_wires(
    messages: Seq<Message>,
    modulus: nat,
    use_correction: bool,
)
    requires
        modulus > 0,
        same_field(messages, modulus),
        spoken_messages(circuit_dialect(modulus), messages),
        with_messages::<ToR1CSConverter>(
            fresh(),
            opened(use_correction),
            messages,
            0,
        ).0.error is None,
    ensures
        ({
            let (e, s) = with_messages::<ToR1CSConverter>(
                fresh(),
                opened(use_correction),
                messages,
                0,
            );
            let given = with_messages::<PlaintextBackend>(
                fresh(),
                plain_state(0),
                messages,
                0,
            ).0;
            &&& given.error is Some ==> violated(system_of(s))
            &&& given.error is None ==> values_given(system_of(s), e.scope, given.scope)
        }),
{
    let read = converter_reading(modulus, use_correction);
    let (e, s) = with_messages::<ToR1CSConverter>(fresh(), opened(use_correction), messages, 0);
    let v = system_of(s);
    let given = with_messages::<PlaintextBackend>(fresh(), plain_state(0), messages, 0);
    lemma_converter_simulates(modulus, use_correction);
    lemma_converter_takes_field(modulus, use_correction);
    assert(fresh().scope.dom() =~= Set::<u64>::empty());
    sim_messages::<ToR1CSConverter>(
        read,
        opened(use_correction),
        (fresh(), plain_state(0)),
        (fresh(), opened(use_correction)),
        messages,
        0,
    );
    if given.0.error is None {
        if (read.good)(s) {
            assert forall|id: u64| #[trigger] given.0.scope.contains_key(id) implies {
                &&& e.scope[id] <= u64::MAX
                &&& v.assignment.contains_key(e.scope[id] as u64)
                &&& v.assignment[e.scope[id] as u64] == given.0.scope[id]
            } by {
                assert(e.scope.dom().contains(id));
                assert((read.value)(s, e.scope[id]) == Some(given.0.scope[id]));
            }
        } else {
            assert forall|id: u64| given.0.scope.contains_key(id) implies false by {
                assert(e.scope.dom().contains(id));
            }
            assert(e.scope.dom() =~= given.0.scope.dom());
        }
    }
}

/// Where all claims are met, all constraints are.
proof fn lemma_all_met(v: R1csV, modulus: nat)
    requires
        modulus > 0,
        consistent(v, modulus),
        claims_met(v),
    ensures
        all_met_modulo(v, modulus),
        v.use_correction ==> all_met_exactly(v),
{
    assert forall|i: int| 0 <= i < v.constraints.len() implies (
    #[trigger] v.constraints[i]).met_modulo(solution(v), modulus) && (v.use_correction
        ==> v.constraints[i].met_exactly(solution(v))) by {
        let c = v.constraints[i];
        if is_claim(c) {
            lemma_claim(c.a.ids[0], solution(v));
            assert(0nat % modulus == 0);
        }
    }
}

/// Where a claim is not met, some constraint is not.
proof fn lemma_some_unmet(v: R1csV, modulus: nat)
    requires
        modulus > 0,
        grounded(v),
        violated(v),
    ensures
        !all_met_exactly(v),
        all_reduced(v, modulus) ==> !all_met_modulo(v, modulus),
{
    let i = choose|i: int|
        0 <= i < v.constraints.len() && is_claim(#[trigger] v.constraints[i]) && {
            let a = v.constraints[i].a.ids[0];
            &&& solution(v).contains_key(a) && solution(v)[a] != 0
            &&& v.assignment.contains_key(a) && v.assignment[a] != 0
        };
    let a = v.constraints[i].a.ids[0];
    lemma_claim(a, solution(v));
    assert(!v.constraints[i].met_exactly(solution(v)));
    if all_reduced(v, modulus) {
        assert(solution(v)[a] < modulus);
        vstd::arithmetic::div_mod::lemma_small_mod(solution(v)[a], modulus);
        assert(!v.constraints[i].met_modulo(solution(v), modulus));
    }
}

} // verus!
