//! Several relations are as one.

use crate::consumers::backend::{BackendState, ZKBackend};
use crate::consumers::invariance::keeps_gates;
use crate::consumers::plaintext::{plain_state, PlaintextBackend};
use crate::consumers::scope_law::iterators_end_with_loops;
use crate::consumers::selection_law::gates_keep_field;
use crate::consumers::semantics::{
    all_defined, run_gate, run_gates, with_relation, Env, EvaluatorV, Machine, Outcome, Text,
    MAX_NESTING,
};
use crate::number::le_value;
use crate::structs::gate::Gate;
use crate::structs::relation::{Relation, BOOL};
use vstd::prelude::*;

verus! {

/// What gates leave that follow others: nothing more where these fail.
pub open spec fn followed<B: ZKBackend>(
    before: Outcome,
    gates: Seq<Gate>,
    env: Env,
    weight: Option<nat>,
    depth: nat,
) -> Outcome {
    match before.1 {
        Err(t) => (before.0, Err(t)),
        Ok(_) => run_gates::<B>(gates, 0, env, weight, depth, before.0),
    }
}

proof fn lemma_later_gates<B: ZKBackend>(
    first: Seq<Gate>,
    second: Seq<Gate>,
    k: nat,
    env: Env,
    weight: Option<nat>,
    depth: nat,
    m: Machine,
)
    ensures
        run_gates::<B>(first + second, first.len() + k, env, weight, depth, m) == run_gates::<B>(
            second,
            k,
            env,
            weight,
            depth,
            m,
        ),
    decreases second.len() - k,
{
    if k < second.len() {
        let gate = second[k as int];
        assert((first + second)[first.len() + k as int] == gate);
        let (m1, r) = run_gate::<B>(gate, env, weight, depth, m);
        if r is Ok {
            lemma_later_gates::<B>(first, second, k + 1, env, weight, depth, m1);
        }
    }
}

/// Gates after others are evaluated from where these end.
pub proof fn gates_follow_gates<B: ZKBackend>(
    first: Seq<Gate>,
    second: Seq<Gate>,
    k: nat,
    env: Env,
    weight: Option<nat>,
    depth: nat,
    m: Machine,
)
    requires
        k <= first.len(),
    ensures
        run_gates::<B>(first + second, k, env, weight, depth, m) == followed::<B>(
            run_gates::<B>(first, k, env, weight, depth, m),
            second,
            env,
            weight,
            depth,
        ),
    decreases first.len() - k,
{
    if k < first.len() {
        let gate = first[k as int];
        assert((first + second)[k as int] == gate);
        let (m1, r) = run_gate::<B>(gate, env, weight, depth, m);
        if r is Ok {
            gates_follow_gates::<B>(first, second, k + 1, env, weight, depth, m1);
        }
    } else {
        lemma_later_gates::<B>(first, second, 0, env, weight, depth, m);
    }
}

/// Whether two relations are over the same field, with the same kind of gates.
pub open spec fn alike(a: Relation, b: Relation) -> bool {
    &&& a.header.field_characteristic@ == b.header.field_characteristic@
    &&& a.header.field_degree == b.header.field_degree
    &&& a.gate_mask == b.gate_mask
}

/// Two relations in a row are as one with the gates of both. In plaintext, let the second
/// relation be over the same field as the first, with the same kind of gates and without
/// functions. Both are accepted, one after the other, just where the one relation is, and
/// leave the same wires, the same instance and witness values, the same functions and the
/// same backend.
pub proof fn relations_in_a_row(
    e: EvaluatorV,
    s: BackendState,
    first: Relation,
    second: Relation,
    whole: Relation,
)
    requires
        alike(first, second),
        alike(first, whole),
        second.functions@.len() == 0,
        whole.functions@ == first.functions@,
        whole.gates@ == first.gates@ + second.gates@,
    ensures
        ({
            let (e1, s1, r1) = with_relation::<PlaintextBackend>(e, s, first);
            let (e2, s2, r2) = with_relation::<PlaintextBackend>(e1, s1, second);
            let (e3, s3, r3) = with_relation::<PlaintextBackend>(e, s, whole);
            &&& r3 is Ok <==> r1 is Ok && r2 is Ok
            &&& r3 is Ok ==> e3 == e2 && s3 == s2
        }),
{
    let modulus = le_value(first.header.field_characteristic@);
    let is_boolean = first.gate_mask & BOOL == BOOL;
    let functions = e.functions + all_defined(first.functions@);
    let env = Env { functions, modulus, is_boolean };
    let m = Machine {
        backend: plain_state(modulus),
        scope: e.scope,
        iterators: Map::empty(),
        instances: e.instances,
        witnesses: e.witnesses,
    };
    assert(functions + all_defined(second.functions@) =~= functions);
    gates_follow_gates::<PlaintextBackend>(
        first.gates@,
        second.gates@,
        0,
        env,
        None,
        MAX_NESTING as nat,
        m,
    );
    let (m1, r) = run_gates::<PlaintextBackend>(
        first.gates@,
        0,
        env,
        None,
        MAX_NESTING as nat,
        m,
    );
    if r is Ok {
        gates_keep_field(modulus);
        keeps_gates::<PlaintextBackend>(
            |s: BackendState| s == plain_state(modulus),
            first.gates@,
            0,
            env,
            None,
            MAX_NESTING as nat,
            m,
        );
        iterators_end_with_loops::<PlaintextBackend>(
            first.gates@,
            0,
            env,
            None,
            MAX_NESTING as nat,
            m,
        );
        assert(m1.iterators =~= Map::<Text, u64>::empty()) by {
            assert forall|name: Text| !m1.iterators.contains_key(name) by {}
        }
    }
}

} // verus!
