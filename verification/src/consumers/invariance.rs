//! What no request changes, no evaluation changes.

use crate::consumers::backend::{Answer, BackendState, Request, ZKBackend};
use crate::consumers::semantics::{
    add_request, all_defined, ask, freed, gathered, known, loaded, look, merged, most_counts,
    mul_request, negated, nested_weight, power, run_branch, run_cases, run_for, run_function,
    run_gate, run_gates, run_subcircuit, run_switch, run_turn, smaller, store, unloaded,
    weighted_sum, with_message, with_messages, with_relation, Branches, Env, EvaluatorV, FunctionV,
    Machine, Scope, Text, MAX_NESTING,
};
use crate::number::le_value;
use crate::structs::function::{CaseInvoke, ForLoopBody};
use crate::structs::gate::Gate;
use crate::structs::iterators::evaluated;
use crate::structs::message::Message;
use crate::structs::relation::{Relation, BOOL};
use crate::structs::wire::{expanded, WireListElement};
use vstd::prelude::*;

verus! {

/// Whether every request keeps a property of the backend's state.
pub open spec fn kept<B: ZKBackend>(j: spec_fn(BackendState) -> bool) -> bool {
    forall|s: BackendState, r: Request| j(s) ==> j(#[trigger] B::after(s, r))
}

/// Whether every request that gates make keeps a property of the backend's state.
pub open spec fn kept_by_gates<B: ZKBackend>(j: spec_fn(BackendState) -> bool) -> bool {
    forall|s: BackendState, r: Request|
        j(s) && !(r is SetField) ==> j(#[trigger] B::after(s, r))
}

pub proof fn keeps_power<B: ZKBackend>(
    j: spec_fn(BackendState) -> bool,
    s: BackendState,
    is_boolean: bool,
    base: nat,
    exponent: nat,
)
    requires
        kept_by_gates::<B>(j),
        j(s),
    ensures
        j(power::<B>(s, is_boolean, base, exponent).0),
    decreases exponent,
{
    if exponent > 1 {
        keeps_power::<B>(j, s, is_boolean, base, exponent / 2);
    }
}

pub proof fn keeps_weight<B: ZKBackend>(
    j: spec_fn(BackendState) -> bool,
    s: BackendState,
    env: Env,
    weight: Option<nat>,
    case: Seq<u8>,
    condition: nat,
)
    requires
        kept_by_gates::<B>(j),
        j(s),
    ensures
        j(nested_weight::<B>(s, env, weight, case, condition).0),
{
    if env.modulus >= 2 && B::parse(case) is Ok {
        let s1 = B::after(s, Request::Constant(B::parse(case)->Ok_0));
        let s2 = negated::<B>(s1, env.is_boolean, condition).0;
        assert(j(s2));
        if negated::<B>(s1, env.is_boolean, condition).1 is Ok {
            let minus = negated::<B>(s1, env.is_boolean, condition).1->Ok_0;
            let case_wire = B::answer(s, Request::Constant(B::parse(case)->Ok_0))->Ok_0;
            let (s3, base) = ask::<B>(s2, add_request(env.is_boolean, case_wire, minus));
            if base is Ok {
                keeps_power::<B>(j, s3, env.is_boolean, base->Ok_0, (env.modulus - 1) as nat);
            }
        }
    }
}

pub proof fn keeps_loaded<B: ZKBackend>(
    j: spec_fn(BackendState) -> bool,
    s: BackendState,
    scope: Scope,
    inputs: Seq<u64>,
    output_count: nat,
    k: nat,
    inner: Scope,
)
    requires
        kept_by_gates::<B>(j),
        j(s),
    ensures
        j(loaded::<B>(s, scope, inputs, output_count, k, inner).0),
    decreases inputs.len() - k,
{
    if k < inputs.len() && look(scope, inputs[k as int]) is Ok {
        let request = Request::Copy(look(scope, inputs[k as int])->Ok_0);
        let (s1, copy) = ask::<B>(s, request);
        let id = ((k + output_count) % 0x1_0000_0000_0000_0000) as u64;
        if copy is Ok {
            keeps_loaded::<B>(
                j,
                s1,
                scope,
                inputs,
                output_count,
                k + 1,
                inner.insert(id, copy->Ok_0),
            );
        }
    }
}

pub proof fn keeps_gathered<B: ZKBackend>(
    j: spec_fn(BackendState) -> bool,
    s: BackendState,
    scope: Scope,
    inputs: Seq<u64>,
    k: nat,
    branch: Scope,
)
    requires
        kept_by_gates::<B>(j),
        j(s),
    ensures
        j(gathered::<B>(s, scope, inputs, k, branch).0),
    decreases inputs.len() - k,
{
    if k < inputs.len() && look(scope, inputs[k as int]) is Ok {
        let request = Request::Copy(look(scope, inputs[k as int])->Ok_0);
        let (s1, copy) = ask::<B>(s, request);
        if copy is Ok {
            keeps_gathered::<B>(
                j,
                s1,
                scope,
                inputs,
                k + 1,
                branch.insert(inputs[k as int], copy->Ok_0),
            );
        }
    }
}

pub proof fn keeps_unloaded<B: ZKBackend>(
    j: spec_fn(BackendState) -> bool,
    m: Machine,
    inner: Scope,
    outputs: Seq<u64>,
    k: nat,
)
    requires
        kept_by_gates::<B>(j),
        j(m.backend),
    ensures
        j(unloaded::<B>(m, inner, outputs, k).0.backend),
    decreases outputs.len() - k,
{
    if k < outputs.len() && look(inner, k as u64) is Ok {
        let request = Request::Copy(look(inner, k as u64)->Ok_0);
        let (m1, r) = store(m, ask::<B>(m.backend, request), outputs[k as int]);
        if r is Ok {
            keeps_unloaded::<B>(j, m1, inner, outputs, k + 1);
        }
    }
}

pub proof fn keeps_sum<B: ZKBackend>(
    j: spec_fn(BackendState) -> bool,
    s: BackendState,
    is_boolean: bool,
    scopes: Seq<Scope>,
    weights: Seq<nat>,
    id: u64,
    k: nat,
    sum: Answer,
)
    requires
        kept_by_gates::<B>(j),
        j(s),
    ensures
        j(weighted_sum::<B>(s, is_boolean, scopes, weights, id, k, sum).0),
    decreases scopes.len() - k,
{
    if k < scopes.len() {
        match look(scopes[k as int], id) {
            Err(t) => keeps_sum::<B>(j, s, is_boolean, scopes, weights, id, k + 1, Err(t)),
            Ok(v) => {
                let (s1, product) = ask::<B>(s, mul_request(is_boolean, v, weights[k as int]));
                match product {
                    Err(t) => keeps_sum::<B>(j, s1, is_boolean, scopes, weights, id, k + 1, Err(t)),
                    Ok(p) => match sum {
                        Err(t) => keeps_sum::<B>(
                            j,
                            s1,
                            is_boolean,
                            scopes,
                            weights,
                            id,
                            k + 1,
                            Err(t),
                        ),
                        Ok(a) => {
                            let (s2, next) = ask::<B>(s1, add_request(is_boolean, a, p));
                            keeps_sum::<B>(j, s2, is_boolean, scopes, weights, id, k + 1, next);
                        },
                    },
                }
            },
        }
    }
}

pub proof fn keeps_merged<B: ZKBackend>(
    j: spec_fn(BackendState) -> bool,
    m: Machine,
    is_boolean: bool,
    scopes: Seq<Scope>,
    weights: Seq<nat>,
    outputs: Seq<u64>,
    k: nat,
)
    requires
        kept_by_gates::<B>(j),
        j(m.backend),
    ensures
        j(merged::<B>(m, is_boolean, scopes, weights, outputs, k).0.backend),
    decreases outputs.len() - k,
{
    if k < outputs.len() && B::answer(m.backend, Request::Zero) is Ok {
        let request = Request::Constant(B::answer(m.backend, Request::Zero)->Ok_0);
        let (s1, zero) = ask::<B>(m.backend, request);
        let id = outputs[k as int];
        keeps_sum::<B>(j, s1, is_boolean, scopes, weights, id, 0, zero);
        let reply = weighted_sum::<B>(s1, is_boolean, scopes, weights, id, 0, zero);
        let (m1, r) = store(m, reply, id);
        if r is Ok {
            keeps_merged::<B>(j, m1, is_boolean, scopes, weights, outputs, k + 1);
        }
    }
}

/// A property of the backend's state that the requests of gates keep is kept by gates.
pub proof fn keeps_gates<B: ZKBackend>(
    j: spec_fn(BackendState) -> bool,
    gates: Seq<Gate>,
    k: nat,
    env: Env,
    weight: Option<nat>,
    depth: nat,
    m: Machine,
)
    requires
        kept_by_gates::<B>(j),
        j(m.backend),
    ensures
        j(run_gates::<B>(gates, k, env, weight, depth, m).0.backend),
    decreases depth, gates, gates.len() - k,
{
    if k < gates.len() {
        keeps_gate::<B>(j, gates[k as int], env, weight, depth, m);
        let (m1, r) = run_gate::<B>(gates[k as int], env, weight, depth, m);
        if r is Ok {
            keeps_gates::<B>(j, gates, k + 1, env, weight, depth, m1);
        }
    }
}

pub proof fn keeps_subcircuit<B: ZKBackend>(
    j: spec_fn(BackendState) -> bool,
    gates: Seq<Gate>,
    outputs: Seq<u64>,
    inputs: Seq<u64>,
    env: Env,
    weight: Option<nat>,
    depth: nat,
    m: Machine,
)
    requires
        kept_by_gates::<B>(j),
        j(m.backend),
    ensures
        j(run_subcircuit::<B>(gates, outputs, inputs, env, weight, depth, m).0.backend),
    decreases depth, gates, gates.len() + 1,
{
    keeps_loaded::<B>(j, m.backend, m.scope, inputs, outputs.len(), 0, Map::empty());
    let (s1, inner, r1) = loaded::<B>(
        m.backend,
        m.scope,
        inputs,
        outputs.len(),
        0,
        Map::empty(),
    );
    if r1 is Ok {
        let m1 = Machine { backend: s1, scope: inner, ..m };
        keeps_gates::<B>(j, gates, 0, env, weight, depth, m1);
        let (m2, r2) = run_gates::<B>(gates, 0, env, weight, depth, m1);
        if r2 is Ok {
            keeps_unloaded::<B>(j, Machine { scope: m.scope, ..m2 }, m2.scope, outputs, 0);
        }
    }
}

pub proof fn keeps_function<B: ZKBackend>(
    j: spec_fn(BackendState) -> bool,
    f: FunctionV,
    outputs: Seq<u64>,
    inputs: Seq<u64>,
    env: Env,
    weight: Option<nat>,
    depth: nat,
    m: Machine,
)
    requires
        kept_by_gates::<B>(j),
        j(m.backend),
    ensures
        j(run_function::<B>(f, outputs, inputs, env, weight, depth, m).0.backend),
    decreases depth, f.body, f.body.len() + 2,
{
    keeps_subcircuit::<B>(
        j,
        f.body,
        outputs,
        inputs,
        env,
        weight,
        depth,
        Machine { iterators: Map::empty(), ..m },
    );
}

pub proof fn keeps_turn<B: ZKBackend>(
    j: spec_fn(BackendState) -> bool,
    body: ForLoopBody,
    env: Env,
    weight: Option<nat>,
    depth: nat,
    m: Machine,
)
    requires
        kept_by_gates::<B>(j),
        j(m.backend),
    ensures
        j(run_turn::<B>(body, env, weight, depth, m).0.backend),
    decreases depth, body, 0int,
{
    match body {
        ForLoopBody::IterExprCall(name, outputs, inputs) => {
            let f = known(env.functions, name@);
            let outs = evaluated(outputs@, m.iterators);
            let ins = evaluated(inputs@, m.iterators);
            if f is Some && outs is Ok && ins is Ok && depth > 0 {
                keeps_function::<B>(
                    j,
                    f->Some_0,
                    outs->Ok_0,
                    ins->Ok_0,
                    env,
                    weight,
                    (depth - 1) as nat,
                    m,
                );
            }
        },
        ForLoopBody::IterExprAnonCall(outputs, inputs, _, _, subcircuit) => {
            let outs = evaluated(outputs@, m.iterators);
            let ins = evaluated(inputs@, m.iterators);
            if outs is Ok && ins is Ok {
                keeps_subcircuit::<B>(
                    j,
                    subcircuit@,
                    outs->Ok_0,
                    ins->Ok_0,
                    env,
                    weight,
                    depth,
                    m,
                );
            }
        },
    }
}

pub proof fn keeps_for<B: ZKBackend>(
    j: spec_fn(BackendState) -> bool,
    name: Text,
    current: int,
    last: int,
    body: ForLoopBody,
    env: Env,
    weight: Option<nat>,
    depth: nat,
    m: Machine,
)
    requires
        kept_by_gates::<B>(j),
        j(m.backend),
    ensures
        j(run_for::<B>(name, current, last, body, env, weight, depth, m).0.backend),
    decreases depth, body, last - current + 2,
{
    if current <= last {
        let m0 = Machine { iterators: m.iterators.insert(name, current as u64), ..m };
        keeps_turn::<B>(j, body, env, weight, depth, m0);
        let (m1, r) = run_turn::<B>(body, env, weight, depth, m0);
        if r is Ok {
            keeps_for::<B>(j, name, current + 1, last, body, env, weight, depth, m1);
        }
    }
}

pub proof fn keeps_branch<B: ZKBackend>(
    j: spec_fn(BackendState) -> bool,
    branch: CaseInvoke,
    outputs: Seq<u64>,
    env: Env,
    weight: nat,
    depth: nat,
    m: Machine,
)
    requires
        kept_by_gates::<B>(j),
        j(m.backend),
    ensures
        j(run_branch::<B>(branch, outputs, env, weight, depth, m).0.backend),
    decreases depth, branch, 0int,
{
    match branch {
        CaseInvoke::AbstractGateCall(name, inputs) => {
            let f = known(env.functions, name@);
            if f is Some && expanded(inputs@) is Ok {
                let ins = expanded(inputs@)->Ok_0;
                keeps_gathered::<B>(j, m.backend, m.scope, ins, 0, Map::empty());
                let (s1, scope, r) = gathered::<B>(m.backend, m.scope, ins, 0, Map::empty());
                if depth > 0 {
                    keeps_function::<B>(
                        j,
                        f->Some_0,
                        outputs,
                        ins,
                        env,
                        Some(weight),
                        (depth - 1) as nat,
                        Machine { backend: s1, scope, ..m },
                    );
                }
            }
        },
        CaseInvoke::AbstractAnonCall(inputs, _, _, subcircuit) => {
            if expanded(inputs@) is Ok {
                let ins = expanded(inputs@)->Ok_0;
                keeps_gathered::<B>(j, m.backend, m.scope, ins, 0, Map::empty());
                let (s1, scope, r) = gathered::<B>(m.backend, m.scope, ins, 0, Map::empty());
                keeps_subcircuit::<B>(
                    j,
                    subcircuit@,
                    outputs,
                    ins,
                    env,
                    Some(weight),
                    depth,
                    Machine { backend: s1, scope, ..m },
                );
            }
        },
    }
}

pub proof fn keeps_cases<B: ZKBackend>(
    j: spec_fn(BackendState) -> bool,
    condition: u64,
    outputs: Seq<u64>,
    cases: Seq<Vec<u8>>,
    branches: Seq<CaseInvoke>,
    k: nat,
    instances: Seq<nat>,
    witnesses: Seq<nat>,
    env: Env,
    weight: Option<nat>,
    depth: nat,
    m: Machine,
    done: Branches,
)
    requires
        kept_by_gates::<B>(j),
        j(m.backend),
    ensures
        j(
            run_cases::<B>(
                condition,
                outputs,
                cases,
                branches,
                k,
                instances,
                witnesses,
                env,
                weight,
                depth,
                m,
                done,
            ).0.backend,
        ),
    decreases depth, branches, branches.len() - k,
{
    if k < cases.len() && k < branches.len() && look(m.scope, condition) is Ok {
        let c = look(m.scope, condition)->Ok_0;
        keeps_weight::<B>(j, m.backend, env, weight, cases[k as int]@, c);
        let (s1, own) = nested_weight::<B>(m.backend, env, weight, cases[k as int]@, c);
        if own is Ok {
            let w = own->Ok_0;
            let m1 = Machine { backend: s1, instances, witnesses, ..m };
            keeps_branch::<B>(j, branches[k as int], outputs, env, w, depth, m1);
            let (m2, r) = run_branch::<B>(branches[k as int], outputs, env, w, depth, m1);
            let m3 = Machine { backend: m2.backend, iterators: m2.iterators, ..m };
            if r is Ok {
                keeps_cases::<B>(
                    j,
                    condition,
                    outputs,
                    cases,
                    branches,
                    k + 1,
                    instances,
                    witnesses,
                    env,
                    weight,
                    depth,
                    m3,
                    (done.0.push(m2.scope), done.1.push(w)),
                );
            }
        }
    }
}

pub proof fn keeps_switch<B: ZKBackend>(
    j: spec_fn(BackendState) -> bool,
    condition: u64,
    outputs: Seq<WireListElement>,
    cases: Seq<Vec<u8>>,
    branches: Seq<CaseInvoke>,
    env: Env,
    weight: Option<nat>,
    depth: nat,
    m: Machine,
)
    requires
        kept_by_gates::<B>(j),
        j(m.backend),
    ensures
        j(run_switch::<B>(condition, outputs, cases, branches, env, weight, depth, m).0.backend),
    decreases depth, branches, branches.len() + 1,
{
    let most = most_counts(env.functions, branches, 0, 0, 0);
    if most is Ok && expanded(outputs) is Ok {
        let i = smaller(m.instances.len(), most->Ok_0.0) as int;
        let w = smaller(m.witnesses.len(), most->Ok_0.1) as int;
        let m1 = Machine { instances: m.instances.skip(i), witnesses: m.witnesses.skip(w), ..m };
        let outs = expanded(outputs)->Ok_0;
        let none: Branches = (Seq::empty(), Seq::empty());
        keeps_cases::<B>(
            j,
            condition,
            outs,
            cases,
            branches,
            0,
            m.instances.take(i),
            m.witnesses.take(w),
            env,
            weight,
            depth,
            m1,
            none,
        );
        let (m2, r) = run_cases::<B>(
            condition,
            outs,
            cases,
            branches,
            0,
            m.instances.take(i),
            m.witnesses.take(w),
            env,
            weight,
            depth,
            m1,
            none,
        );
        if r is Ok {
            keeps_merged::<B>(j, m2, env.is_boolean, r->Ok_0.0, r->Ok_0.1, outs, 0);
        }
    }
}

pub proof fn keeps_gate<B: ZKBackend>(
    j: spec_fn(BackendState) -> bool,
    gate: Gate,
    env: Env,
    weight: Option<nat>,
    depth: nat,
    m: Machine,
)
    requires
        kept_by_gates::<B>(j),
        j(m.backend),
    ensures
        j(run_gate::<B>(gate, env, weight, depth, m).0.backend),
    decreases depth, gate, 0int,
{
    match gate {
        Gate::Call(name, outputs, inputs) => {
            let f = known(env.functions, name@);
            if f is Some && expanded(outputs@) is Ok && expanded(inputs@) is Ok && depth > 0 {
                keeps_function::<B>(
                    j,
                    f->Some_0,
                    expanded(outputs@)->Ok_0,
                    expanded(inputs@)->Ok_0,
                    env,
                    weight,
                    (depth - 1) as nat,
                    m,
                );
            }
        },
        Gate::AnonCall(outputs, inputs, _, _, subcircuit) => {
            if expanded(outputs@) is Ok && expanded(inputs@) is Ok {
                keeps_subcircuit::<B>(
                    j,
                    subcircuit@,
                    expanded(outputs@)->Ok_0,
                    expanded(inputs@)->Ok_0,
                    env,
                    weight,
                    depth,
                    m,
                );
            }
        },
        Gate::For(name, first, last, _, body) => {
            keeps_for::<B>(j, name@, first as int, last as int, body, env, weight, depth, m);
        },
        Gate::Switch(condition, outputs, cases, branches) => {
            keeps_switch::<B>(
                j,
                condition,
                outputs@,
                cases@,
                branches@,
                env,
                weight,
                depth,
                m,
            );
        },
        Gate::Free(first, last) => {
            keeps_freed::<B>(
                m,
                first as int,
                match last {
                    Some(id) => id as int,
                    None => first as int,
                },
            );
        },
        _ => {},
    }
}

pub proof fn keeps_freed<B: ZKBackend>(m: Machine, first: int, last: int)
    ensures
        freed(m, first, last).0.backend == m.backend,
    decreases last - first + 1,
{
    if first <= last && m.scope.contains_key(first as u64) {
        keeps_freed::<B>(
            Machine { scope: m.scope.remove(first as u64), ..m },
            first + 1,
            last,
        );
    }
}

/// A property of the backend's state that every request keeps is kept by relations.
pub proof fn keeps_relation<B: ZKBackend>(
    j: spec_fn(BackendState) -> bool,
    e: EvaluatorV,
    s: BackendState,
    relation: Relation,
)
    requires
        kept::<B>(j),
        j(s),
    ensures
        j(with_relation::<B>(e, s, relation).1),
{
    let is_boolean = relation.gate_mask & BOOL == BOOL;
    let request = Request::SetField {
        modulus: relation.header.field_characteristic@,
        degree: relation.header.field_degree,
        is_boolean,
    };
    let s1 = B::after(s, request);
    keeps_gates::<B>(
        j,
        relation.gates@,
        0,
        Env {
            functions: e.functions + all_defined(relation.functions@),
            modulus: le_value(relation.header.field_characteristic@),
            is_boolean,
        },
        None,
        MAX_NESTING as nat,
        Machine {
            backend: s1,
            scope: e.scope,
            iterators: Map::empty(),
            instances: e.instances,
            witnesses: e.witnesses,
        },
    );
}

/// A property of the backend's state that every request keeps is kept by messages.
pub proof fn keeps_messages<B: ZKBackend>(
    j: spec_fn(BackendState) -> bool,
    e: EvaluatorV,
    s: BackendState,
    messages: Seq<Message>,
    k: nat,
)
    requires
        kept::<B>(j),
        j(s),
    ensures
        j(with_messages::<B>(e, s, messages, k).1),
    decreases messages.len() - k,
{
    if k < messages.len() {
        let message = messages[k as int];
        if message is Relation {
            keeps_relation::<B>(j, e, s, message->Relation_0);
        }
        let (e1, s1) = with_message::<B>(e, s, message);
        keeps_messages::<B>(j, e1, s1, messages, k + 1);
    }
}

/// Once a message is refused, no later message changes anything.
pub proof fn refused_once<B: ZKBackend>(
    e: EvaluatorV,
    s: BackendState,
    messages: Seq<Message>,
    k: nat,
)
    requires
        e.error is Some,
    ensures
        with_messages::<B>(e, s, messages, k) == (e, s),
    decreases messages.len() - k,
{
    if k < messages.len() {
        refused_once::<B>(e, s, messages, k + 1);
    }
}

} // verus!
