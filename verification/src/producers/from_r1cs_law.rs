//! Writing a constraint system as a circuit keeps what it states.

use crate::consumers::plaintext::{plain_state, PlaintextBackend};
use crate::consumers::semantics::{fresh, violations, with_messages, Machine};
use crate::consumers::statements::{
    messages_give_verdict, messages_in, nothing_received, numbers, opening, run_views, scope_of,
    simple,
};
use crate::number::{le_value, lemma_value_of_bytes};
use crate::producers::build_gates::{BuildGateV, NO_OUTPUT};
use crate::producers::builder::{empty_statement, StatementV};
use crate::producers::from_r1cs::{header_over, prepared, ConversionV, Step};
use crate::producers::from_r1cs_refusal::wires_stay;
use crate::producers::sink::{MemorySink, Sink};
use crate::structs::r1cs::{
    ids_below, listed, weighed, witness_ids, BilinearConstraint, ConstraintV, VariableV, VariablesV,
};
use crate::structs::relation::{ARITH, SIMPLE};
use vstd::arithmetic::div_mod::{lemma_add_mod_noop, lemma_mod_twice, lemma_mul_mod_noop};
use vstd::prelude::*;

verus! {

/// The machine that the gates of a conversion leave, where `start` is the one that
/// they begin with: each wire has its value, and so many instance and witness values
/// are taken.
spec fn standing(
    c: ConversionV,
    start: Machine,
    values: Seq<nat>,
    instances: nat,
    witnesses: nat,
) -> bool {
    let (m, r) = run_views::<PlaintextBackend>(c.statement.gates, start);
    &&& r is Ok
    &&& m == (Machine {
        scope: scope_of(values),
        instances: start.instances.skip(instances as int),
        witnesses: start.witnesses.skip(witnesses as int),
        ..start
    })
    &&& values.len() == c.statement.free_id
    &&& values.len() <= NO_OUTPUT
}

/// Whether the gates of a conversion refuse their values.
spec fn failing(c: ConversionV, start: Machine) -> bool {
    run_views::<PlaintextBackend>(c.statement.gates, start).1 is Err
}

/// Whether each variable stands on a wire with its value.
spec fn wired(c: ConversionV, values: Seq<nat>, given: Map<u64, nat>, modulus: nat) -> bool {
    &&& c.minus_one < values.len()
    &&& values[c.minus_one as int] == modulus - 1
    &&& forall|id: u64| #[trigger]
        c.wires.contains_key(id) ==> {
            &&& c.wires[id] < values.len()
            &&& given.contains_key(id)
            &&& values[c.wires[id] as int] == given[id]
        }
}

/// Whether values follow others.
spec fn follow(more: Seq<nat>, values: Seq<nat>) -> bool {
    values.len() <= more.len() && forall|i: int|
        0 <= i < values.len() ==> #[trigger] more[i] == values[i]
}

/// The value of a gate that computes.
spec fn computed(g: BuildGateV, values: Seq<nat>, modulus: nat) -> nat {
    match g {
        BuildGateV::Constant(bytes) => le_value(bytes),
        BuildGateV::Mul(a, b) => (values[a as int] * values[b as int]) % modulus,
        BuildGateV::Add(a, b) => (values[a as int] + values[b as int]) % modulus,
        _ => 0,
    }
}

/// Whether a gate computes from wires that have values.
spec fn computes(g: BuildGateV, values: Seq<nat>) -> bool {
    match g {
        BuildGateV::Constant(_) => true,
        BuildGateV::Mul(a, b) => a < values.len() && b < values.len(),
        BuildGateV::Add(a, b) => a < values.len() && b < values.len(),
        _ => false,
    }
}

proof fn lemma_gate(
    c: ConversionV,
    g: BuildGateV,
    start: Machine,
    values: Seq<nat>,
    i: nat,
    w: nat,
    modulus: nat,
)
    requires
        modulus > 0,
        start.backend == plain_state(modulus),
        standing(c, start, values, i, w),
        computes(g, values),
        c.gate(g).1 is Ok,
    ensures
        standing(c.gate(g).0, start, values.push(computed(g, values, modulus)), i, w),
        c.gate(g).1->Ok_0 == values.len(),
        c.gate(g).0.wires == c.wires,
        c.gate(g).0.minus_one == c.minus_one,
{
    let c1 = c.gate(g).0;
    let x = computed(g, values, modulus);
    assert(c1.statement.gates.drop_last() =~= c.statement.gates);
    assert(scope_of(values).insert(values.len() as u64, x) =~= scope_of(values.push(x)));
}

/// What was refused stays refused.
proof fn lemma_failing(c: ConversionV, g: BuildGateV, start: Machine)
    requires
        failing(c, start),
    ensures
        failing(ConversionV { statement: c.statement.with_gate(g), ..c }, start),
{
    assert(c.statement.with_gate(g).gates.drop_last() =~= c.statement.gates);
}

/// Whether a step gives a wire with a value, modulo the characteristic.
spec fn stepped(
    c: ConversionV,
    step: Step,
    start: Machine,
    values: Seq<nat>,
    more: Seq<nat>,
    i: nat,
    w: nat,
    modulus: nat,
    result: nat,
) -> bool {
    &&& standing(step.0, start, more, i, w)
    &&& follow(more, values)
    &&& step.0.wires == c.wires
    &&& step.0.minus_one == c.minus_one
    &&& step.1->Ok_0 < more.len()
    &&& more[step.1->Ok_0 as int] % modulus == result % modulus
}

proof fn lemma_byte_zero()
    ensures
        le_value(seq![0u8]) == 0,
        le_value(seq![1u8]) == 1,
{
    reveal_with_fuel(le_value, 2);
    assert(seq![0u8].drop_first() =~= Seq::empty());
    assert(seq![1u8].drop_first() =~= Seq::empty());
}

proof fn lemma_term(
    c: ConversionV,
    t: VariableV,
    start: Machine,
    values: Seq<nat>,
    given: Map<u64, nat>,
    i: nat,
    w: nat,
    modulus: nat,
) -> (more: Seq<nat>)
    requires
        modulus > 0,
        start.backend == plain_state(modulus),
        standing(c, start, values, i, w),
        wired(c, values, given, modulus),
        given[0] == 1,
        c.term(t).1 is Ok,
    ensures
        stepped(
            c,
            c.term(t),
            start,
            values,
            more,
            i,
            w,
            modulus,
            le_value(t.value) * given[t.id],
        ),
{
    let bytes = if t.value.len() != 0 {
        t.value
    } else {
        seq![0u8]
    };
    lemma_byte_zero();
    assert(le_value(bytes) == le_value(t.value));
    let g = BuildGateV::Constant(bytes);
    lemma_gate(c, g, start, values, i, w, modulus);
    let v1 = values.push(le_value(bytes));
    let c1 = c.gate(g).0;
    if t.id == 0 {
        assert(le_value(t.value) * given[0] == le_value(t.value));
        v1
    } else {
        let g2 = BuildGateV::Mul(c.wires[t.id], values.len() as u64);
        assert(c.wires.contains_key(t.id));
        lemma_gate(c1, g2, start, v1, i, w, modulus);
        let x = computed(g2, v1, modulus);
        assert(v1[c.wires[t.id] as int] == given[t.id]);
        assert(given[t.id] * le_value(bytes) == le_value(t.value) * given[t.id])
            by (nonlinear_arith)
            requires
                le_value(bytes) == le_value(t.value),
        ;
        lemma_mod_twice((given[t.id] * le_value(bytes)) as int, modulus as int);
        v1.push(x)
    }
}

proof fn lemma_sums(
    c: ConversionV,
    terms: Seq<VariableV>,
    k: nat,
    sum: u64,
    start: Machine,
    values: Seq<nat>,
    given: Map<u64, nat>,
    i: nat,
    w: nat,
    modulus: nat,
) -> (more: Seq<nat>)
    requires
        modulus > 0,
        start.backend == plain_state(modulus),
        standing(c, start, values, i, w),
        wired(c, values, given, modulus),
        given[0] == 1,
        k <= terms.len(),
        sum < values.len(),
        values[sum as int] % modulus == weighed(terms.take(k as int), given) % modulus,
        c.sum_from(terms, k, sum).1 is Ok,
    ensures
        stepped(
            c,
            c.sum_from(terms, k, sum),
            start,
            values,
            more,
            i,
            w,
            modulus,
            weighed(terms, given),
        ),
    decreases terms.len() - k,
{
    if k >= terms.len() {
        assert(terms.take(k as int) =~= terms);
        values
    } else {
        let t = terms[k as int];
        let v1 = lemma_term(c, t, start, values, given, i, w, modulus);
        let c1 = c.term(t).0;
        let id = c.term(t).1->Ok_0;
        let g = BuildGateV::Add(sum, id);
        lemma_gate(c1, g, start, v1, i, w, modulus);
        let x = computed(g, v1, modulus);
        let v2 = v1.push(x);
        let c2 = c1.gate(g).0;
        let next = terms.take((k + 1) as int);
        assert(next.drop_last() =~= terms.take(k as int));
        assert(next.last() == t);
        assert(v1[sum as int] == values[sum as int]);
        let product = le_value(t.value) * given[t.id];
        let so_far = weighed(terms.take(k as int), given);
        lemma_add_mod_noop(v1[sum as int] as int, v1[id as int] as int, modulus as int);
        lemma_add_mod_noop(so_far as int, product as int, modulus as int);
        lemma_mod_twice((v1[sum as int] + v1[id as int]) as int, modulus as int);
        assert(weighed(next, given) == so_far + product);
        assert(wired(c2, v2, given, modulus)) by {
            assert(follow(v2, values));
        }
        let more = lemma_sums(
            c2,
            terms,
            k + 1,
            v1.len() as u64,
            start,
            v2,
            given,
            i,
            w,
            modulus,
        );
        assert(follow(more, values));
        more
    }
}

proof fn lemma_combination(
    c: ConversionV,
    terms: Seq<VariableV>,
    start: Machine,
    values: Seq<nat>,
    given: Map<u64, nat>,
    i: nat,
    w: nat,
    modulus: nat,
) -> (more: Seq<nat>)
    requires
        modulus > 0,
        start.backend == plain_state(modulus),
        standing(c, start, values, i, w),
        wired(c, values, given, modulus),
        given[0] == 1,
        c.combination(terms).1 is Ok,
    ensures
        stepped(
            c,
            c.combination(terms),
            start,
            values,
            more,
            i,
            w,
            modulus,
            weighed(terms, given),
        ),
{
    if terms.len() == 0 {
        lemma_byte_zero();
        let g = BuildGateV::Constant(seq![0u8]);
        lemma_gate(c, g, start, values, i, w, modulus);
        values.push(0)
    } else {
        let v1 = lemma_term(c, terms[0], start, values, given, i, w, modulus);
        let c1 = c.term(terms[0]).0;
        let first = terms.take(1);
        assert(first.drop_last() =~= Seq::empty());
        assert(first.last() == terms[0]);
        reveal_with_fuel(weighed, 2);
        assert(wired(c1, v1, given, modulus));
        let more = lemma_sums(
            c1,
            terms,
            1,
            c.term(terms[0]).1->Ok_0,
            start,
            v1,
            given,
            i,
            w,
            modulus,
        );
        assert(follow(more, values));
        more
    }
}

/// A product minus a number is zero just where they are the same modulo `m`.
proof fn lemma_difference(x: nat, z: nat, m: nat)
    requires
        m > 0,
    ensures
        (x % m + ((m - 1) * z) % (m as int)) % (m as int) == 0 <==> x % m == z % m,
{
    let y = (m - 1) * z;
    lemma_add_mod_noop(x as int, y, m as int);
    assert(x + y == (x - z) + m * z) by (nonlinear_arith)
        requires
            y == (m - 1) * z,
    ;
    vstd::arithmetic::div_mod::lemma_mod_multiples_vanish(z as int, x - z, m as int);
    assert(m * z + (x - z) == x + y);
    assert((x - z) % (m as int) == 0 <==> x % m == z % m) by {
        vstd::arithmetic::div_mod::lemma_mod_equivalence(x as int, z as int, m as int);
    }
}

/// A claim holds just where the product of two wires is the third, modulo the
/// characteristic.
proof fn lemma_claim(
    c: ConversionV,
    a: u64,
    b: u64,
    d: u64,
    start: Machine,
    values: Seq<nat>,
    i: nat,
    w: nat,
    modulus: nat,
) -> (more: Seq<nat>)
    requires
        modulus > 0,
        start.backend == plain_state(modulus),
        standing(c, start, values, i, w),
        a < values.len(),
        b < values.len(),
        d < values.len(),
        c.minus_one < values.len(),
        values[c.minus_one as int] == modulus - 1,
        c.claim(a, b, d).1 is Ok,
    ensures
        c.claim(a, b, d).0.wires == c.wires,
        c.claim(a, b, d).0.minus_one == c.minus_one,
        if (values[a as int] * values[b as int]) % modulus == values[d as int] % modulus {
            standing(c.claim(a, b, d).0, start, more, i, w) && follow(more, values)
        } else {
            failing(c.claim(a, b, d).0, start)
        },
{
    let g1 = BuildGateV::Mul(a, b);
    lemma_gate(c, g1, start, values, i, w, modulus);
    let x1 = computed(g1, values, modulus);
    let v1 = values.push(x1);
    let c1 = c.gate(g1).0;
    let g2 = BuildGateV::Mul(c.minus_one, d);
    lemma_gate(c1, g2, start, v1, i, w, modulus);
    let x2 = computed(g2, v1, modulus);
    let v2 = v1.push(x2);
    let c2 = c1.gate(g2).0;
    let g3 = BuildGateV::Add(values.len() as u64, v1.len() as u64);
    lemma_gate(c2, g3, start, v2, i, w, modulus);
    let x3 = computed(g3, v2, modulus);
    let v3 = v2.push(x3);
    let c3 = c2.gate(g3).0;
    let zero = v2.len() as u64;
    lemma_difference(values[a as int] * values[b as int], values[d as int], modulus);
    assert(x3 == 0 <==> (values[a as int] * values[b as int]) % modulus == values[d as int]
        % modulus);
    let c4 = c.claim(a, b, d).0;
    assert(c4.statement == c3.statement.with_gate(BuildGateV::AssertZero(zero)));
    assert(c4.statement.gates.drop_last() =~= c3.statement.gates);
    assert(scope_of(v3).contains_key(zero));
    assert(scope_of(v3)[zero] == x3);
    v3
}

proof fn lemma_constraint(
    c: ConversionV,
    x: ConstraintV,
    start: Machine,
    values: Seq<nat>,
    given: Map<u64, nat>,
    i: nat,
    w: nat,
    modulus: nat,
) -> (more: Seq<nat>)
    requires
        modulus > 0,
        start.backend == plain_state(modulus),
        standing(c, start, values, i, w),
        wired(c, values, given, modulus),
        given[0] == 1,
        c.constraint(x).1 is Ok,
    ensures
        if x.met_modulo(given, modulus) {
            standing(c.constraint(x).0, start, more, i, w) && wired(
                c.constraint(x).0,
                more,
                given,
                modulus,
            )
        } else {
            failing(c.constraint(x).0, start)
        },
{
    let v1 = lemma_combination(c, x.a.split(), start, values, given, i, w, modulus);
    let (c1, a) = (c.combination(x.a.split()).0, c.combination(x.a.split()).1->Ok_0);
    assert(wired(c1, v1, given, modulus));
    let v2 = lemma_combination(c1, x.b.split(), start, v1, given, i, w, modulus);
    let (c2, b) = (c1.combination(x.b.split()).0, c1.combination(x.b.split()).1->Ok_0);
    assert(wired(c2, v2, given, modulus));
    let v3 = lemma_combination(c2, x.c.split(), start, v2, given, i, w, modulus);
    let (c3, d) = (c2.combination(x.c.split()).0, c2.combination(x.c.split()).1->Ok_0);
    assert(wired(c3, v3, given, modulus));
    assert(v3[a as int] == v1[a as int]);
    assert(v3[b as int] == v2[b as int]);
    let wa = weighed(x.a.split(), given);
    let wb = weighed(x.b.split(), given);
    lemma_mul_mod_noop(v3[a as int] as int, v3[b as int] as int, modulus as int);
    lemma_mul_mod_noop(wa as int, wb as int, modulus as int);
    assert((v3[a as int] * v3[b as int]) % modulus == (wa * wb) % modulus);
    lemma_claim(c3, a, b, d, start, v3, i, w, modulus)
}

proof fn lemma_failing_term(c: ConversionV, t: VariableV, start: Machine)
    requires
        failing(c, start),
    ensures
        failing(c.term(t).0, start),
{
    let value = if t.value.len() != 0 {
        t.value
    } else {
        seq![0u8]
    };
    let g = BuildGateV::Constant(value);
    lemma_failing(c, g, start);
    let c1 = c.gate(g).0;
    if c.wires.contains_key(t.id) {
        lemma_failing(
            c1,
            BuildGateV::Mul(c.wires[t.id], c.gate(g).1->Ok_0),
            start,
        );
    }
}

proof fn lemma_failing_sums(
    c: ConversionV,
    terms: Seq<VariableV>,
    k: nat,
    sum: u64,
    start: Machine,
)
    requires
        failing(c, start),
    ensures
        failing(c.sum_from(terms, k, sum).0, start),
    decreases terms.len() - k,
{
    if k < terms.len() {
        let t = terms[k as int];
        lemma_failing_term(c, t, start);
        let (c1, term) = c.term(t);
        if term is Ok {
            let g = BuildGateV::Add(sum, term->Ok_0);
            lemma_failing(c1, g, start);
            let (c2, next) = c1.gate(g);
            if next is Ok {
                lemma_failing_sums(c2, terms, k + 1, next->Ok_0, start);
            }
        }
    }
}

proof fn lemma_failing_combination(c: ConversionV, terms: Seq<VariableV>, start: Machine)
    requires
        failing(c, start),
    ensures
        failing(c.combination(terms).0, start),
{
    if terms.len() == 0 {
        lemma_failing(c, BuildGateV::Constant(seq![0u8]), start);
    } else {
        lemma_failing_term(c, terms[0], start);
        let (c1, first) = c.term(terms[0]);
        if first is Ok {
            lemma_failing_sums(c1, terms, 1, first->Ok_0, start);
        }
    }
}

proof fn lemma_failing_claim(c: ConversionV, a: u64, b: u64, d: u64, start: Machine)
    requires
        failing(c, start),
    ensures
        failing(c.claim(a, b, d).0, start),
{
    let g1 = BuildGateV::Mul(a, b);
    lemma_failing(c, g1, start);
    let (c1, product) = c.gate(g1);
    if product is Ok {
        let g2 = BuildGateV::Mul(c.minus_one, d);
        lemma_failing(c1, g2, start);
        let (c2, neg) = c1.gate(g2);
        if neg is Ok {
            let g3 = BuildGateV::Add(product->Ok_0, neg->Ok_0);
            lemma_failing(c2, g3, start);
            let (c3, zero) = c2.gate(g3);
            if zero is Ok {
                lemma_failing(c3, BuildGateV::AssertZero(zero->Ok_0), start);
            }
        }
    }
}

proof fn lemma_failing_constraint(c: ConversionV, x: ConstraintV, start: Machine)
    requires
        failing(c, start),
    ensures
        failing(c.constraint(x).0, start),
{
    lemma_failing_combination(c, x.a.split(), start);
    let (c1, a) = c.combination(x.a.split());
    if a is Ok {
        lemma_failing_combination(c1, x.b.split(), start);
        let (c2, b) = c1.combination(x.b.split());
        if b is Ok {
            lemma_failing_combination(c2, x.c.split(), start);
            let (c3, d) = c2.combination(x.c.split());
            if d is Ok {
                lemma_failing_claim(c3, a->Ok_0, b->Ok_0, d->Ok_0, start);
            }
        }
    }
}

proof fn lemma_failing_constraints(
    c: ConversionV,
    list: Seq<BilinearConstraint>,
    k: nat,
    start: Machine,
)
    requires
        failing(c, start),
    ensures
        failing(c.constraints(list, k).0, start),
    decreases list.len() - k,
{
    if k < list.len() {
        lemma_failing_constraint(c, list[k as int]@, start);
        let (c1, r) = c.constraint(list[k as int]@);
        if r is Ok {
            lemma_failing_constraints(c1, list, k + 1, start);
        }
    }
}

/// Whether values meet the constraints from the `k`-th on, modulo a number.
pub open spec fn met_from(
    list: Seq<BilinearConstraint>,
    k: nat,
    given: Map<u64, nat>,
    modulus: nat,
) -> bool {
    forall|i: int| k <= i < list.len() ==> (#[trigger] list[i])@.met_modulo(given, modulus)
}

proof fn lemma_constraints(
    c: ConversionV,
    list: Seq<BilinearConstraint>,
    k: nat,
    start: Machine,
    values: Seq<nat>,
    given: Map<u64, nat>,
    i: nat,
    w: nat,
    modulus: nat,
)
    requires
        modulus > 0,
        start.backend == plain_state(modulus),
        standing(c, start, values, i, w),
        wired(c, values, given, modulus),
        given[0] == 1,
        c.constraints(list, k).1 is Ok,
    ensures
        run_views::<PlaintextBackend>(
            c.constraints(list, k).0.statement.gates,
            start,
        ).1 is Ok <==> met_from(list, k, given, modulus),
    decreases list.len() - k,
{
    if k < list.len() {
        let x = list[k as int]@;
        let more = lemma_constraint(c, x, start, values, given, i, w, modulus);
        let c1 = c.constraint(x).0;
        if x.met_modulo(given, modulus) {
            lemma_constraints(c1, list, k + 1, start, more, given, i, w, modulus);
            assert(met_from(list, k, given, modulus) == met_from(list, k + 1, given, modulus));
        } else {
            lemma_failing_constraints(c1, list, k + 1, start);
            assert(!list[k as int]@.met_modulo(given, modulus));
        }
    }
}

/// A conversion with other witness values.
pub open spec fn retold(c: ConversionV, witnesses: Seq<Seq<u8>>) -> ConversionV {
    ConversionV { statement: StatementV { witnesses, ..c.statement }, ..c }
}

/// Whether a conversion only adds gates that run no others.
spec fn further(c: ConversionV, d: ConversionV) -> bool {
    &&& d.statement == (StatementV {
        gates: d.statement.gates,
        free_id: d.statement.free_id,
        ..c.statement
    })
    &&& d.wires == c.wires
    &&& simple(c.statement.gates) ==> simple(d.statement.gates)
}

/// Whether a step only adds gates, the same whatever the witness values are.
spec fn apart(c: ConversionV, step: Step, other: Step, witnesses: Seq<Seq<u8>>) -> bool {
    &&& further(c, step.0)
    &&& other.0 == retold(step.0, witnesses)
    &&& other.1 == step.1
}

proof fn lemma_apart_gate(c: ConversionV, g: BuildGateV, witnesses: Seq<Seq<u8>>)
    requires
        !(g is Instance) && !(g is Witness),
    ensures
        apart(c, c.gate(g), retold(c, witnesses).gate(g), witnesses),
{
    let d = c.gate(g).0;
    if simple(c.statement.gates) {
        assert forall|i: int| 0 <= i < d.statement.gates.len() implies !(
        #[trigger] d.statement.gates[i] is Compound) by {
            if i < c.statement.gates.len() {
                assert(d.statement.gates[i] == c.statement.gates[i]);
            }
        }
    }
}

proof fn lemma_apart_term(c: ConversionV, t: VariableV, witnesses: Seq<Seq<u8>>)
    ensures
        apart(c, c.term(t), retold(c, witnesses).term(t), witnesses),
{
    let value = if t.value.len() != 0 {
        t.value
    } else {
        seq![0u8]
    };
    let g = BuildGateV::Constant(value);
    lemma_apart_gate(c, g, witnesses);
    let (c1, constant) = c.gate(g);
    if constant is Ok && c.wires.contains_key(t.id) {
        lemma_apart_gate(c1, BuildGateV::Mul(c.wires[t.id], constant->Ok_0), witnesses);
    }
}

proof fn lemma_apart_sums(
    c: ConversionV,
    terms: Seq<VariableV>,
    k: nat,
    sum: u64,
    witnesses: Seq<Seq<u8>>,
)
    ensures
        apart(
            c,
            c.sum_from(terms, k, sum),
            retold(c, witnesses).sum_from(terms, k, sum),
            witnesses,
        ),
    decreases terms.len() - k,
{
    if k < terms.len() {
        lemma_apart_term(c, terms[k as int], witnesses);
        let (c1, term) = c.term(terms[k as int]);
        if term is Ok {
            let g = BuildGateV::Add(sum, term->Ok_0);
            lemma_apart_gate(c1, g, witnesses);
            let (c2, next) = c1.gate(g);
            if next is Ok {
                lemma_apart_sums(c2, terms, k + 1, next->Ok_0, witnesses);
            }
        }
    }
}

proof fn lemma_apart_combination(
    c: ConversionV,
    terms: Seq<VariableV>,
    witnesses: Seq<Seq<u8>>,
)
    ensures
        apart(c, c.combination(terms), retold(c, witnesses).combination(terms), witnesses),
{
    if terms.len() == 0 {
        lemma_apart_gate(c, BuildGateV::Constant(seq![0u8]), witnesses);
    } else {
        lemma_apart_term(c, terms[0], witnesses);
        let (c1, first) = c.term(terms[0]);
        if first is Ok {
            lemma_apart_sums(c1, terms, 1, first->Ok_0, witnesses);
        }
    }
}

proof fn lemma_apart_claim(c: ConversionV, a: u64, b: u64, d: u64, witnesses: Seq<Seq<u8>>)
    ensures
        apart(c, c.claim(a, b, d), retold(c, witnesses).claim(a, b, d), witnesses),
{
    let g1 = BuildGateV::Mul(a, b);
    lemma_apart_gate(c, g1, witnesses);
    let (c1, product) = c.gate(g1);
    if product is Ok {
        let g2 = BuildGateV::Mul(c.minus_one, d);
        lemma_apart_gate(c1, g2, witnesses);
        let (c2, neg) = c1.gate(g2);
        if neg is Ok {
            let g3 = BuildGateV::Add(product->Ok_0, neg->Ok_0);
            lemma_apart_gate(c2, g3, witnesses);
            let (c3, zero) = c2.gate(g3);
            if zero is Ok {
                let last = c.claim(a, b, d).0;
                if simple(c3.statement.gates) {
                    assert forall|i: int| 0 <= i < last.statement.gates.len() implies !(
                    #[trigger] last.statement.gates[i] is Compound) by {
                        if i < c3.statement.gates.len() {
                            assert(last.statement.gates[i] == c3.statement.gates[i]);
                        }
                    }
                }
            }
        }
    }
}

proof fn lemma_apart_constraint(c: ConversionV, x: ConstraintV, witnesses: Seq<Seq<u8>>)
    ensures
        apart(c, c.constraint(x), retold(c, witnesses).constraint(x), witnesses),
{
    lemma_apart_combination(c, x.a.split(), witnesses);
    let (c1, a) = c.combination(x.a.split());
    if a is Ok {
        lemma_apart_combination(c1, x.b.split(), witnesses);
        let (c2, b) = c1.combination(x.b.split());
        if b is Ok {
            lemma_apart_combination(c2, x.c.split(), witnesses);
            let (c3, d) = c2.combination(x.c.split());
            if d is Ok {
                lemma_apart_claim(c3, a->Ok_0, b->Ok_0, d->Ok_0, witnesses);
            }
        }
    }
}

proof fn lemma_apart_constraints(
    c: ConversionV,
    list: Seq<BilinearConstraint>,
    k: nat,
    witnesses: Seq<Seq<u8>>,
)
    ensures
        further(c, c.constraints(list, k).0),
        retold(c, witnesses).constraints(list, k) == (
            retold(c.constraints(list, k).0, witnesses),
            c.constraints(list, k).1,
        ),
    decreases list.len() - k,
{
    if k < list.len() {
        lemma_apart_constraint(c, list[k as int]@, witnesses);
        let (c1, r) = c.constraint(list[k as int]@);
        if r is Ok {
            lemma_apart_constraints(c1, list, k + 1, witnesses);
        }
    }
}

/// The values of several variables.
pub open spec fn values_of(list: Seq<VariableV>) -> Seq<Seq<u8>> {
    list.map_values(|v: VariableV| v.value)
}

proof fn lemma_assignments(c: ConversionV, list: Seq<VariableV>, k: nat)
    requires
        k <= list.len(),
    ensures
        c.assignments(list, k).1 is Ok ==> c.assignments(list, k).0 == retold(
            c,
            c.statement.witnesses + values_of(list).skip(k as int),
        ),
        c.assignments(list, k).1 is Ok <==> forall|i: int|
            k <= i < list.len() ==> c.wires.contains_key((#[trigger] list[i]).id),
    decreases list.len() - k,
{
    let rest = values_of(list).skip(k as int);
    if k < list.len() && c.wires.contains_key(list[k as int].id) {
        let c1 = ConversionV {
            statement: c.statement.with_witness_value(list[k as int].value),
            ..c
        };
        lemma_assignments(c1, list, k + 1);
        assert(c.statement.witnesses.push(list[k as int].value) + values_of(list).skip(
            (k + 1) as int,
        ) =~= c.statement.witnesses + rest);
    } else if k >= list.len() {
        assert(c.statement.witnesses + rest =~= c.statement.witnesses);
    }
}

/// Private values and constraints may reach a conversion in either order.
pub proof fn order_does_not_matter(
    c: ConversionV,
    given: Seq<VariableV>,
    list: Seq<BilinearConstraint>,
)
    requires
        c.assignments(given, 0).1 is Ok,
    ensures
        ({
            let (c1, r1) = c.assignments(given, 0).0.constraints(list, 0);
            let (c2, r2) = c.constraints(list, 0);
            &&& r1 == r2
            &&& r2 is Ok ==> c2.assignments(given, 0) == (c1, Ok::<(), Seq<char>>(()))
        }),
{
    let witnesses = c.statement.witnesses + values_of(given).skip(0);
    lemma_assignments(c, given, 0);
    lemma_apart_constraints(c, list, 0, witnesses);
    let c2 = c.constraints(list, 0).0;
    if c.constraints(list, 0).1 is Ok {
        lemma_assignments(c2, given, 0);
        match c2.assignments(given, 0).1 {
            Ok(nothing) => {
                assert(nothing == ());
            },
            Err(_) => {},
        }
    }
}

/// The values of all variables: of the instance variables, then of the private ones.
/// Variable zero is one.
pub open spec fn all_values(instance_variables: VariablesV, given: Seq<VariableV>) -> Map<
    u64,
    nat,
> {
    listed(instance_variables.split() + given).insert(0, 1)
}

proof fn lemma_instances_last(c: ConversionV, list: Seq<VariableV>, k: nat)
    ensures
        ({
            let d = c.with_instances(list, k);
            &&& c.statement.instances.len() <= d.statement.instances.len()
            &&& forall|i: int|
                0 <= i < c.statement.instances.len() ==> #[trigger] d.statement.instances[i]
                    == c.statement.instances[i]
            &&& d.statement == (StatementV {
                gates: d.statement.gates,
                free_id: d.statement.free_id,
                instances: d.statement.instances,
                ..c.statement
            })
            &&& d.minus_one == c.minus_one
            &&& simple(c.statement.gates) ==> simple(d.statement.gates)
        }),
    decreases list.len() - k,
{
    if k < list.len() {
        if list[k as int].id == 0 {
            lemma_instances_last(c, list, k + 1);
        } else {
            let g = BuildGateV::Instance(Some(list[k as int].value));
            let c1 = c.bound(list[k as int].id, g);
            lemma_bound_simple(c, list[k as int].id, g);
            lemma_instances_last(c1, list, k + 1);
            let d = c.with_instances(list, k);
            assert forall|i: int| 0 <= i < c.statement.instances.len() implies
                #[trigger] d.statement.instances[i] == c.statement.instances[i] by {
                assert(c1.statement.instances[i] == c.statement.instances[i]);
            }
        }
    }
}

proof fn lemma_bound_simple(c: ConversionV, id: u64, g: BuildGateV)
    ensures
        simple(c.statement.gates) ==> simple(c.bound(id, g).statement.gates),
{
    let d = c.bound(id, g);
    if simple(c.statement.gates) {
        assert forall|i: int| 0 <= i < d.statement.gates.len() implies !(
        #[trigger] d.statement.gates[i] is Compound) by {
            if i < c.statement.gates.len() {
                assert(d.statement.gates[i] == c.statement.gates[i]);
            }
        }
    }
}

/// Instance variables take their values in order.
proof fn lemma_with_instances(
    c: ConversionV,
    list: Seq<VariableV>,
    k: nat,
    start: Machine,
    values: Seq<nat>,
    modulus: nat,
) -> (more: Seq<nat>)
    requires
        modulus > 0,
        start.backend == plain_state(modulus),
        k <= list.len(),
        standing(c, start, values, c.statement.instances.len(), 0),
        wired(c, values, listed(list.take(k as int)).insert(0, 1), modulus),
        start.instances == numbers(c.with_instances(list, k).statement.instances),
        c.statement.free_id + (list.len() - k) <= NO_OUTPUT,
        simple(c.statement.gates),
    ensures
        ({
            let d = c.with_instances(list, k);
            &&& standing(d, start, more, d.statement.instances.len(), 0)
            &&& wired(d, more, listed(list).insert(0, 1), modulus)
            &&& d.statement.free_id <= c.statement.free_id + (list.len() - k)
        }),
    decreases list.len() - k,
{
    if k >= list.len() {
        assert(list.take(k as int) =~= list);
        values
    } else {
        let t = list[k as int];
        let so_far = list.take(k as int);
        let next = list.take((k + 1) as int);
        assert(next.drop_last() =~= so_far);
        assert(next.last() == t);
        if t.id == 0 {
            assert(listed(next).insert(0, 1) =~= listed(so_far).insert(0, 1));
            lemma_with_instances(c, list, k + 1, start, values, modulus)
        } else {
            let g = BuildGateV::Instance(Some(t.value));
            let c1 = c.bound(t.id, g);
            let n = c.statement.instances.len();
            lemma_bound_simple(c, t.id, g);
            lemma_instances_last(c1, list, k + 1);
            let x = le_value(t.value);
            assert(c1.statement.instances[n as int] == t.value);
            assert(start.instances[n as int] == x);
            let v1 = values.push(x);
            assert(c1.statement.gates.drop_last() =~= c.statement.gates);
            assert(scope_of(values).insert(values.len() as u64, x) =~= scope_of(v1));
            assert(start.instances.skip(n as int).drop_first() =~= start.instances.skip(
                (n + 1) as int,
            ));
            assert(standing(c1, start, v1, c1.statement.instances.len(), 0));
            assert(wired(c1, v1, listed(next).insert(0, 1), modulus));
            lemma_with_instances(c1, list, k + 1, start, v1, modulus)
        }
    }
}

/// Private variables take the witness values in order.
proof fn lemma_with_privates(
    c: ConversionV,
    first: Seq<VariableV>,
    given: Seq<VariableV>,
    ids: Seq<u64>,
    k: nat,
    start: Machine,
    values: Seq<nat>,
    i: nat,
    modulus: nat,
) -> (more: Seq<nat>)
    requires
        modulus > 0,
        start.backend == plain_state(modulus),
        k <= given.len(),
        given.len() == ids.len(),
        forall|j: int| 0 <= j < ids.len() ==> (#[trigger] given[j]).id == ids[j] && ids[j] != 0,
        start.witnesses == numbers(values_of(given)),
        standing(c, start, values, i, k),
        wired(c, values, listed(first + given.take(k as int)).insert(0, 1), modulus),
        c.statement.free_id + (ids.len() - k) <= NO_OUTPUT,
        simple(c.statement.gates),
    ensures
        ({
            let d = c.with_privates(ids, k);
            &&& standing(d, start, more, i, given.len())
            &&& wired(d, more, listed(first + given).insert(0, 1), modulus)
            &&& simple(d.statement.gates)
            &&& d.statement == (StatementV {
                gates: d.statement.gates,
                free_id: d.statement.free_id,
                ..c.statement
            })
        }),
    decreases ids.len() - k,
{
    if k >= ids.len() {
        assert(given.take(k as int) =~= given);
        values
    } else {
        let t = given[k as int];
        let so_far = first + given.take(k as int);
        let next = first + given.take((k + 1) as int);
        assert(next.drop_last() =~= so_far);
        assert(next.last() == t);
        let g = BuildGateV::Witness(None);
        let c1 = c.bound(ids[k as int], g);
        lemma_bound_simple(c, ids[k as int], g);
        let x = le_value(t.value);
        assert(start.witnesses[k as int] == x) by {
            assert(values_of(given)[k as int] == t.value);
        }
        let v1 = values.push(x);
        assert(c1.statement.gates.drop_last() =~= c.statement.gates);
        assert(scope_of(values).insert(values.len() as u64, x) =~= scope_of(v1));
        assert(start.witnesses.skip(k as int).drop_first() =~= start.witnesses.skip(
            (k + 1) as int,
        ));
        assert(start.witnesses.skip(k as int)[0] == x);
        assert(standing(c1, start, v1, i, k + 1));
        assert(wired(c1, v1, listed(next).insert(0, 1), modulus));
        lemma_with_privates(c1, first, given, ids, k + 1, start, v1, i, modulus)
    }
}

/// A constraint system is written as a circuit that states the same: evaluating it in
/// plaintext gives no violation just where the values of all variables meet all constraints
/// modulo the characteristic. The private values are to come in the order of the
/// numbers of their variables.
#[verifier::rlimit(40)]
pub proof fn circuit_keeps_meaning(
    instance_variables: VariablesV,
    free_variable_id: u64,
    field_maximum: Seq<u8>,
    given: Seq<VariableV>,
    list: Seq<BilinearConstraint>,
    sink: MemorySink,
)
    requires
        instance_variables.ids.len() + given.len() + 2 <= NO_OUTPUT,
        given.map_values(|v: VariableV| v.id) == witness_ids(
            instance_variables.ids,
            free_variable_id,
        ),
        ({
            let c = prepared(instance_variables, free_variable_id, field_maximum).assignments(
                given,
                0,
            );
            let d = c.0.constraints(list, 0);
            &&& c.1 is Ok
            &&& d.1 is Ok
            &&& sink.received() == d.0.statement.sent_to(nothing_received())
        }),
    ensures
        violations(
            with_messages::<PlaintextBackend>(
                fresh(),
                plain_state(0),
                messages_in(sink),
                0,
            ).0,
        ).len() == 0 <==> met_from(
            list,
            0,
            all_values(instance_variables, given),
            le_value(field_maximum) + 1,
        ),
{
    let modulus = le_value(field_maximum) + 1;
    let ids = witness_ids(instance_variables.ids, free_variable_id);
    let first = instance_variables.split();
    let values = all_values(instance_variables, given);
    let p = prepared(instance_variables, free_variable_id, field_maximum);
    let c = p.assignments(given, 0).0;
    let d = c.constraints(list, 0).0;
    let v = d.statement;
    let start = opening(v);
    lemma_value_of_bytes(modulus);
    lemma_byte_zero();
    // The two constants.
    let c0 = ConversionV {
        statement: constants(field_maximum),
        wires: Map::empty().insert(0, 0),
        minus_one: 1,
    };
    let c1 = c0.with_instances(first, 0);
    lemma_two_simple(field_maximum);
    lemma_instances_last(c0, first, 0);
    lemma_privates_kept(c1, ids, 0);
    assert(p == c1.with_privates(ids, 0));
    assert(p.statement.header == header_over(field_maximum));
    assert(p.statement.witnesses =~= Seq::empty());
    lemma_assignments(p, given, 0);
    assert(c.statement.witnesses =~= values_of(given));
    lemma_apart_constraints(c, list, 0, Seq::empty());
    assert(v.header == header_over(field_maximum));
    assert(v.witnesses == values_of(given));
    assert(v.instances == c1.statement.instances);
    assert(start.backend == plain_state(modulus));
    // The gates up to the constraints.
    let v0 = seq![1nat, (modulus - 1) as nat];
    lemma_constants(field_maximum, start);
    assert(first.take(0) =~= Seq::empty());
    assert(listed(first.take(0)).insert(0, 1) =~= Map::empty().insert(0u64, 1nat));
    assert(wired(c0, v0, listed(first.take(0)).insert(0, 1), modulus));
    let v1 = lemma_with_instances(c0, first, 0, start, v0, modulus);
    assert(first + given.take(0) =~= first);
    assert forall|j: int| 0 <= j < ids.len() implies (#[trigger] given[j]).id == ids[j] && ids[j]
        != 0 by {
        assert(given.map_values(|v: VariableV| v.id)[j] == given[j].id);
        lemma_private_ids(instance_variables.ids, free_variable_id, j);
    }
    assert(given.len() == ids.len()) by {
        assert(given.map_values(|v: VariableV| v.id).len() == given.len());
    }
    let v2 = lemma_with_privates(
        c1,
        first,
        given,
        ids,
        0,
        start,
        v1,
        c1.statement.instances.len(),
        modulus,
    );
    assert(standing(c, start, v2, c1.statement.instances.len(), given.len()));
    assert(wired(c, v2, values, modulus));
    lemma_constraints(
        c,
        list,
        0,
        start,
        v2,
        values,
        c1.statement.instances.len(),
        given.len(),
        modulus,
    );
    wires_stay(c, given, list);
    assert(c.statement.gates.len() > 0) by {
        assert(scope_of(v2).contains_key(0));
        assert(!start.scope.contains_key(0));
    }
    messages_give_verdict(v, sink);
}

proof fn lemma_privates_kept(c: ConversionV, ids: Seq<u64>, k: nat)
    ensures
        ({
            let d = c.with_privates(ids, k);
            &&& d.statement == (StatementV {
                gates: d.statement.gates,
                free_id: d.statement.free_id,
                ..c.statement
            })
            &&& simple(c.statement.gates) ==> simple(d.statement.gates)
        }),
    decreases ids.len() - k,
{
    if k < ids.len() {
        let g = BuildGateV::Witness(None);
        lemma_bound_simple(c, ids[k as int], g);
        lemma_privates_kept(c.bound(ids[k as int], g), ids, k + 1);
    }
}

/// The statement of the two constants that a circuit begins with.
spec fn constants(field_maximum: Seq<u8>) -> StatementV {
    empty_statement(header_over(field_maximum), ARITH, SIMPLE).with_gate(
        BuildGateV::Constant(seq![1u8]),
    ).with_gate(BuildGateV::Constant(field_maximum))
}

proof fn lemma_two_simple(field_maximum: Seq<u8>)
    ensures
        simple(constants(field_maximum).gates),
{
    let gates = constants(field_maximum).gates;
    assert forall|i: int| 0 <= i < gates.len() implies !(#[trigger] gates[i] is Compound) by {
        assert(i == 0 || i == 1);
    }
}

proof fn lemma_constants(field_maximum: Seq<u8>, start: Machine)
    requires
        start.scope == Map::<u64, nat>::empty(),
        start.backend == plain_state(le_value(field_maximum) + 1),
    ensures
        standing(
            ConversionV {
                statement: constants(field_maximum),
                wires: Map::empty().insert(0, 0),
                minus_one: 1,
            },
            start,
            seq![1nat, le_value(field_maximum)],
            0,
            0,
        ),
{
    let modulus = le_value(field_maximum) + 1;
    lemma_byte_zero();
    let c = ConversionV {
        statement: empty_statement(header_over(field_maximum), ARITH, SIMPLE),
        wires: Map::empty().insert(0, 0),
        minus_one: 1,
    };
    assert(scope_of(Seq::empty()) =~= Map::empty());
    assert(start.instances.skip(0) =~= start.instances);
    assert(start.witnesses.skip(0) =~= start.witnesses);
    assert(standing(c, start, Seq::empty(), 0, 0));
    let g1 = BuildGateV::Constant(seq![1u8]);
    let g2 = BuildGateV::Constant(field_maximum);
    lemma_gate(c, g1, start, Seq::empty(), 0, 0, modulus);
    lemma_gate(c.gate(g1).0, g2, start, Seq::empty().push(1), 0, 0, modulus);
    assert(Seq::<nat>::empty().push(1).push(le_value(field_maximum)) =~= seq![
        1nat,
        le_value(field_maximum),
    ]);
}

proof fn lemma_private_ids(instance_ids: Seq<u64>, free_variable_id: u64, j: int)
    requires
        0 <= j < witness_ids(instance_ids, free_variable_id).len(),
    ensures
        witness_ids(instance_ids, free_variable_id)[j] != 0,
{
    let all = ids_below(free_variable_id);
    let ids = witness_ids(instance_ids, free_variable_id);
    assert(ids.contains(ids[j]));
    all.lemma_filter_contains_rev(|id: u64| !instance_ids.contains(id), ids[j]);
    let k = choose|k: int| 0 <= k < all.len() && all[k] == ids[j];
    assert(all[k] == (k + 1) as u64);
}

} // verus!
