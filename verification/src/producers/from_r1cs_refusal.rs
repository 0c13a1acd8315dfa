//! Which constraints are written as gates, and which are refused.

use crate::producers::build_gates::{BuildGateV, NO_OUTPUT};
use crate::producers::builder::empty_statement;
use crate::producers::from_r1cs::{header_over, prepared, undefined_text, ConversionV};
use crate::structs::gate::GateV;
use crate::structs::r1cs::{
    ids_below, witness_ids, BilinearConstraint, ConstraintV, VariableV, VariablesV,
};
use crate::structs::relation::{ARITH, SIMPLE};
use vstd::prelude::*;

verus! {

/// How many gates are assertions.
pub open spec fn assertions_in(gates: Seq<GateV>) -> nat
    decreases gates.len(),
{
    if gates.len() == 0 {
        0
    } else {
        assertions_in(gates.drop_last()) + (if gates.last() is AssertZero {
            1nat
        } else {
            0nat
        })
    }
}

/// The first variable of terms, from the `k`-th on, that has no wire. Variable zero needs
/// none.
pub open spec fn missing_term(terms: Seq<VariableV>, wires: Map<u64, u64>, k: nat) -> Option<u64>
    decreases terms.len() - k,
{
    if k >= terms.len() {
        None
    } else if terms[k as int].id != 0 && !wires.contains_key(terms[k as int].id) {
        Some(terms[k as int].id)
    } else {
        missing_term(terms, wires, k + 1)
    }
}

/// The first of two variables that are missing, if any is.
pub open spec fn first_missing(a: Option<u64>, b: Option<u64>) -> Option<u64> {
    match a {
        Some(id) => Some(id),
        None => b,
    }
}

/// The first variable of a constraint that has no wire.
pub open spec fn missing_in(c: ConstraintV, wires: Map<u64, u64>) -> Option<u64> {
    first_missing(
        first_missing(
            missing_term(c.a.split(), wires, 0),
            missing_term(c.b.split(), wires, 0),
        ),
        missing_term(c.c.split(), wires, 0),
    )
}

/// The first variable of constraints, from the `k`-th on, that has no wire.
pub open spec fn missing_from(
    list: Seq<BilinearConstraint>,
    wires: Map<u64, u64>,
    k: nat,
) -> Option<u64>
    decreases list.len() - k,
{
    if k >= list.len() {
        None
    } else {
        first_missing(missing_in(list[k as int]@, wires), missing_from(list, wires, k + 1))
    }
}

/// How many wires the sum of terms takes, from the `k`-th on: one for each coefficient, one
/// for each product with a variable, and one for each addition.
pub open spec fn term_wires(terms: Seq<VariableV>, k: nat) -> nat
    decreases terms.len() - k,
{
    if k >= terms.len() {
        0
    } else {
        (if terms[k as int].id == 0 {
            1nat
        } else {
            2nat
        }) + (if k == 0 {
            0nat
        } else {
            1nat
        }) + term_wires(terms, k + 1)
    }
}

/// How many wires a linear combination takes.
pub open spec fn combination_wires(terms: Seq<VariableV>) -> nat {
    if terms.len() == 0 {
        1
    } else {
        term_wires(terms, 0)
    }
}

/// How many wires a constraint takes.
pub open spec fn constraint_wires(c: ConstraintV) -> nat {
    combination_wires(c.a.split()) + combination_wires(c.b.split()) + combination_wires(
        c.c.split(),
    ) + 3
}

/// How many wires constraints take, from the `k`-th on.
pub open spec fn wires_from(list: Seq<BilinearConstraint>, k: nat) -> nat
    decreases list.len() - k,
{
    if k >= list.len() {
        0
    } else {
        constraint_wires(list[k as int]@) + wires_from(list, k + 1)
    }
}

/// Whether so many wires are left.
pub open spec fn wires_left(c: ConversionV, needed: nat) -> bool {
    needed == 0 || c.statement.free_id + needed <= NO_OUTPUT
}

/// Whether a step that needs so many wires, and a variable that has none, if there is one,
/// did what it should: where enough wires are left, it took them, with so many assertions,
/// or was refused for the variable.
spec fn stepped<T>(
    c: ConversionV,
    d: ConversionV,
    r: Result<T, Seq<char>>,
    needed: nat,
    missing: Option<u64>,
    assertions: nat,
) -> bool {
    &&& d.wires == c.wires
    &&& c.statement.gates.len() <= d.statement.gates.len()
    &&& if wires_left(c, needed) {
        match missing {
            Some(id) => r is Err && r->Err_0 == undefined_text(id),
            None => {
                &&& r is Ok
                &&& d.statement.free_id == c.statement.free_id + needed
                &&& assertions_in(d.statement.gates) == assertions_in(c.statement.gates)
                    + assertions
            },
        }
    } else {
        r is Err
    }
}

proof fn step_gate(c: ConversionV, g: BuildGateV)
    requires
        g.writes(),
    ensures
        stepped(c, c.gate(g).0, c.gate(g).1, 1, None, 0),
{
    let d = c.gate(g).0;
    if c.statement.free_id < NO_OUTPUT {
        assert(d.statement.gates.drop_last() =~= c.statement.gates);
    }
}

proof fn step_term(c: ConversionV, t: VariableV)
    ensures
        stepped(
            c,
            c.term(t).0,
            c.term(t).1,
            if t.id == 0 {
                1
            } else {
                2
            },
            if t.id != 0 && !c.wires.contains_key(t.id) {
                Some(t.id)
            } else {
                None
            },
            0,
        ),
{
    let value = if t.value.len() != 0 {
        t.value
    } else {
        seq![0u8]
    };
    step_gate(c, BuildGateV::Constant(value));
    let (v1, constant) = c.gate(BuildGateV::Constant(value));
    if constant is Ok && t.id != 0 && c.wires.contains_key(t.id) {
        step_gate(v1, BuildGateV::Mul(c.wires[t.id], constant->Ok_0));
    }
}

proof fn step_sums(c: ConversionV, terms: Seq<VariableV>, k: nat, sum: u64)
    requires
        k > 0,
    ensures
        stepped(
            c,
            c.sum_from(terms, k, sum).0,
            c.sum_from(terms, k, sum).1,
            term_wires(terms, k),
            missing_term(terms, c.wires, k),
            0,
        ),
    decreases terms.len() - k,
{
    if k < terms.len() {
        step_term(c, terms[k as int]);
        let (v1, term) = c.term(terms[k as int]);
        if term is Ok {
            step_gate(v1, BuildGateV::Add(sum, term->Ok_0));
            let (v2, next) = v1.gate(BuildGateV::Add(sum, term->Ok_0));
            if next is Ok {
                step_sums(v2, terms, k + 1, next->Ok_0);
            }
        }
    }
}

proof fn step_combination(c: ConversionV, terms: Seq<VariableV>)
    ensures
        stepped(
            c,
            c.combination(terms).0,
            c.combination(terms).1,
            combination_wires(terms),
            missing_term(terms, c.wires, 0),
            0,
        ),
{
    if terms.len() == 0 {
        step_gate(c, BuildGateV::Constant(seq![0u8]));
    } else {
        step_term(c, terms[0]);
        let (v1, first) = c.term(terms[0]);
        if first is Ok {
            step_sums(v1, terms, 1, first->Ok_0);
        }
    }
}

proof fn step_claim(c: ConversionV, a: u64, b: u64, sum: u64)
    ensures
        stepped(c, c.claim(a, b, sum).0, c.claim(a, b, sum).1, 3, None, 1),
{
    step_gate(c, BuildGateV::Mul(a, b));
    let (v1, product) = c.gate(BuildGateV::Mul(a, b));
    if product is Ok {
        step_gate(v1, BuildGateV::Mul(c.minus_one, sum));
        let (v2, neg) = v1.gate(BuildGateV::Mul(c.minus_one, sum));
        if neg is Ok {
            step_gate(v2, BuildGateV::Add(product->Ok_0, neg->Ok_0));
            let (v3, zero) = v2.gate(BuildGateV::Add(product->Ok_0, neg->Ok_0));
            if zero is Ok {
                let d = v3.statement.with_gate(BuildGateV::AssertZero(zero->Ok_0));
                assert(d.gates.drop_last() =~= v3.statement.gates);
            }
        }
    }
}

proof fn step_constraint(c: ConversionV, x: ConstraintV)
    ensures
        stepped(
            c,
            c.constraint(x).0,
            c.constraint(x).1,
            constraint_wires(x),
            missing_in(x, c.wires),
            1,
        ),
{
    step_combination(c, x.a.split());
    let (v1, a) = c.combination(x.a.split());
    if a is Ok {
        step_combination(v1, x.b.split());
        let (v2, b) = v1.combination(x.b.split());
        if b is Ok {
            step_combination(v2, x.c.split());
            let (v3, sum) = v2.combination(x.c.split());
            if sum is Ok {
                step_claim(v3, a->Ok_0, b->Ok_0, sum->Ok_0);
            }
        }
    }
}

proof fn step_constraints(c: ConversionV, list: Seq<BilinearConstraint>, k: nat)
    requires
        k <= list.len(),
    ensures
        stepped(
            c,
            c.constraints(list, k).0,
            c.constraints(list, k).1,
            wires_from(list, k),
            missing_from(list, c.wires, k),
            (list.len() - k) as nat,
        ),
    decreases list.len() - k,
{
    if k < list.len() {
        step_constraint(c, list[k as int]@);
        let (v1, r) = c.constraint(list[k as int]@);
        if r is Ok {
            step_constraints(v1, list, k + 1);
        }
    }
}

/// Constraints are refused just where one has a variable, other than variable zero, that
/// stands on no wire, as long as enough wires are left; the first such variable is what
/// they are refused for. Where too few are left, they are refused too. Constraints that are
/// accepted add one assertion each, and take the wires that they need.
pub proof fn undeclared_variables_are_refused(c: ConversionV, list: Seq<BilinearConstraint>)
    ensures
        ({
            let (d, r) = c.constraints(list, 0);
            let missing = missing_from(list, c.wires, 0);
            let enough = wires_left(c, wires_from(list, 0));
            &&& r is Ok <==> missing is None && enough
            &&& enough && missing is Some ==> r is Err && r->Err_0 == undefined_text(
                missing->Some_0,
            )
            &&& r is Ok ==> {
                &&& assertions_in(d.statement.gates) == assertions_in(c.statement.gates)
                    + list.len()
                &&& d.statement.free_id == c.statement.free_id + wires_from(list, 0)
                &&& d.wires == c.wires
            }
        }),
{
    step_constraints(c, list, 0);
}

/// Whether a term needs a variable that has no wire.
pub open spec fn lacks(terms: Seq<VariableV>, wires: Map<u64, u64>) -> bool {
    exists|i: int|
        0 <= i < terms.len() && (#[trigger] terms[i]).id != 0 && !wires.contains_key(terms[i].id)
}

/// Whether a constraint needs a variable that has no wire.
pub open spec fn constraint_lacks(c: ConstraintV, wires: Map<u64, u64>) -> bool {
    lacks(c.a.split(), wires) || lacks(c.b.split(), wires) || lacks(c.c.split(), wires)
}

proof fn lemma_missing_term(terms: Seq<VariableV>, wires: Map<u64, u64>, k: nat)
    ensures
        missing_term(terms, wires, k) is Some <==> exists|i: int|
            k <= i < terms.len() && (#[trigger] terms[i]).id != 0 && !wires.contains_key(
                terms[i].id,
            ),
    decreases terms.len() - k,
{
    if k < terms.len() {
        lemma_missing_term(terms, wires, k + 1);
    }
}

proof fn lemma_missing_from(list: Seq<BilinearConstraint>, wires: Map<u64, u64>, k: nat)
    ensures
        missing_from(list, wires, k) is Some <==> exists|i: int|
            k <= i < list.len() && constraint_lacks((#[trigger] list[i])@, wires),
    decreases list.len() - k,
{
    if k < list.len() {
        let c = list[k as int]@;
        lemma_missing_term(c.a.split(), wires, 0);
        lemma_missing_term(c.b.split(), wires, 0);
        lemma_missing_term(c.c.split(), wires, 0);
        assert(missing_in(c, wires) is Some <==> constraint_lacks(c, wires));
        lemma_missing_from(list, wires, k + 1);
    }
}

proof fn lemma_instance_wires(c: ConversionV, list: Seq<VariableV>, k: nat, id: u64)
    requires
        c.wires.contains_key(0),
    ensures
        c.with_instances(list, k).wires.contains_key(id) <==> c.wires.contains_key(id) || exists|
            i: int,
        |
            k <= i < list.len() && (#[trigger] list[i]).id == id,
    decreases list.len() - k,
{
    if k < list.len() {
        if list[k as int].id == 0 {
            lemma_instance_wires(c, list, k + 1, id);
        } else {
            let g = BuildGateV::Instance(Some(list[k as int].value));
            lemma_instance_wires(c.bound(list[k as int].id, g), list, k + 1, id);
        }
    }
}

proof fn lemma_private_wires(c: ConversionV, ids: Seq<u64>, k: nat, id: u64)
    ensures
        c.with_privates(ids, k).wires.contains_key(id) <==> c.wires.contains_key(id) || exists|
            i: int,
        |
            k <= i < ids.len() && #[trigger] ids[i] == id,
    decreases ids.len() - k,
{
    if k < ids.len() {
        lemma_private_wires(
            c.bound(ids[k as int], BuildGateV::Witness(None)),
            ids,
            k + 1,
            id,
        );
    }
}

/// The variables that stand on a wire from the start are those that the header declares:
/// variable zero, the instance variables, and all below the first free variable.
pub proof fn declared_variables_have_wires(
    instance_variables: VariablesV,
    free_variable_id: u64,
    field_maximum: Seq<u8>,
    id: u64,
)
    ensures
        prepared(instance_variables, free_variable_id, field_maximum).wires.contains_key(id)
            <==> id == 0 || instance_variables.ids.contains(id) || id < free_variable_id,
{
    let p = prepared(instance_variables, free_variable_id, field_maximum);
    let list = instance_variables.split();
    let ids = witness_ids(instance_variables.ids, free_variable_id);
    let c0 = ConversionV {
        statement: empty_statement(header_over(field_maximum), ARITH, SIMPLE).with_gate(
            BuildGateV::Constant(seq![1u8]),
        ).with_gate(BuildGateV::Constant(field_maximum)),
        wires: Map::empty().insert(0, 0),
        minus_one: 1,
    };
    let c1 = c0.with_instances(list, 0);
    assert(p == c1.with_privates(ids, 0));
    lemma_instance_wires(c0, list, 0, id);
    lemma_private_wires(c1, ids, 0, id);
    let all = ids_below(free_variable_id);
    let private = |id: u64| !instance_variables.ids.contains(id);
    if instance_variables.ids.contains(id) {
        let i = choose|i: int|
            0 <= i < instance_variables.ids.len() && instance_variables.ids[i] == id;
        assert(list[i].id == id);
    } else if 0 < id < free_variable_id {
        assert(all[id - 1] == id);
        assert(all.contains(id));
        all.lemma_filter_contains(private, id - 1);
        assert(ids.contains(id));
        let i = choose|i: int| 0 <= i < ids.len() && ids[i] == id;
        assert(ids[i] == id);
    }
    if exists|i: int| 0 <= i < list.len() && (#[trigger] list[i]).id == id {
        let i = choose|i: int| 0 <= i < list.len() && (#[trigger] list[i]).id == id;
        assert(instance_variables.ids[i] == id);
    }
    if exists|i: int| 0 <= i < ids.len() && #[trigger] ids[i] == id {
        assert(ids.contains(id));
        all.lemma_filter_contains_rev(private, id);
        let k = choose|k: int| 0 <= k < all.len() && all[k] == id;
        assert(all[k] == (k + 1) as u64);
    }
}

/// A conversion that begins with a header refuses constraints just where one has a variable
/// that the header does not declare, as long as enough wires are left. It does so whatever
/// private values and whatever constraints it has accepted before.
pub proof fn header_decides_refusal(
    instance_variables: VariablesV,
    free_variable_id: u64,
    field_maximum: Seq<u8>,
    c: ConversionV,
    list: Seq<BilinearConstraint>,
)
    requires
        c.wires == prepared(instance_variables, free_variable_id, field_maximum).wires,
        wires_left(c, wires_from(list, 0)),
    ensures
        c.constraints(list, 0).1 is Err <==> exists|i: int|
            0 <= i < list.len() && constraint_lacks((#[trigger] list[i])@, c.wires),
        forall|id: u64| #[trigger]
            c.wires.contains_key(id) <==> id == 0 || instance_variables.ids.contains(id) || id
                < free_variable_id,
{
    undeclared_variables_are_refused(c, list);
    lemma_missing_from(list, c.wires, 0);
    assert forall|id: u64| #[trigger] c.wires.contains_key(id) <==> id == 0
        || instance_variables.ids.contains(id) || id < free_variable_id by {
        declared_variables_have_wires(instance_variables, free_variable_id, field_maximum, id);
    }
}

/// Private values and constraints leave the wires of all variables as they are, and take
/// no gate away.
pub proof fn wires_stay(
    c: ConversionV,
    given: Seq<VariableV>,
    list: Seq<BilinearConstraint>,
)
    ensures
        c.assignments(given, 0).0.wires == c.wires,
        c.constraints(list, 0).0.wires == c.wires,
        c.statement.gates.len() <= c.constraints(list, 0).0.statement.gates.len(),
{
    lemma_assignment_wires(c, given, 0);
    step_constraints(c, list, 0);
}

proof fn lemma_assignment_wires(c: ConversionV, list: Seq<VariableV>, k: nat)
    ensures
        c.assignments(list, k).0.wires == c.wires,
    decreases list.len() - k,
{
    if k < list.len() && c.wires.contains_key(list[k as int].id) {
        lemma_assignment_wires(
            ConversionV {
                statement: c.statement.with_witness_value(list[k as int].value),
                ..c
            },
            list,
            k + 1,
        );
    }
}

} // verus!
