//! What gates leave as it was.

use crate::consumers::backend::{Request, ZKBackend};
use crate::consumers::semantics::{
    ask, freed, gathered, known, loaded, look, merged, most_counts, nested_weight, run_branch,
    run_cases, run_for, run_function, run_gate, run_gates, run_subcircuit, run_switch, run_turn,
    smaller, store, unloaded, weighted_sum, Branches, Env, FunctionV, Machine, Scope, Text,
};
use crate::structs::function::{CaseInvoke, ForLoopBody};
use crate::structs::gate::Gate;
use crate::structs::iterators::evaluated;
use crate::structs::wire::{expanded, WireListElement};
use vstd::prelude::*;

verus! {

/// Whether all wires of a scope have the same values in another one.
pub open spec fn kept_in(scope: Scope, later: Scope) -> bool {
    forall|id: u64|
        #![trigger scope.contains_key(id)]
        #![trigger later[id]]
        scope.contains_key(id) ==> later.contains_key(id) && later[id] == scope[id]
}

/// Writing the outputs of a subcircuit keeps all other wires, and gives just the outputs
/// a value.
proof fn lemma_unloaded<B: ZKBackend>(m: Machine, inner: Scope, outputs: Seq<u64>, k: nat)
    requires
        k <= outputs.len(),
    ensures
        unloaded::<B>(m, inner, outputs, k).1 is Ok ==> {
            let later = unloaded::<B>(m, inner, outputs, k).0;
            &&& kept_in(m.scope, later.scope)
            &&& forall|id: u64|
                later.scope.contains_key(id) <==> m.scope.contains_key(id) || outputs.skip(
                    k as int,
                ).contains(id)
        },
    decreases outputs.len() - k,
{
    let rest = outputs.skip(k as int);
    if k < outputs.len() && look(inner, k as u64) is Ok {
        let w = look(inner, k as u64)->Ok_0;
        let reply = ask::<B>(
            m.backend,
            Request::Copy(w),
        );
        let (m1, r) = store(m, reply, outputs[k as int]);
        if r is Ok {
            lemma_unloaded::<B>(m1, inner, outputs, k + 1);
            let tail = outputs.skip((k + 1) as int);
            assert(rest =~= seq![outputs[k as int]] + tail);
            assert forall|id: u64| rest.contains(id) <==> id == outputs[k as int] || tail.contains(
                id,
            ) by {
                if id == outputs[k as int] {
                    assert(rest[0] == id);
                }
                if tail.contains(id) {
                    let i = choose|i: int| 0 <= i < tail.len() && tail[i] == id;
                    assert(rest[i + 1] == id);
                }
                if rest.contains(id) && id != outputs[k as int] {
                    let i = choose|i: int| 0 <= i < rest.len() && rest[i] == id;
                    assert(tail[i - 1] == id);
                }
            }
        }
    } else if k >= outputs.len() {
        assert(rest =~= Seq::empty());
    }
}

/// A subcircuit that succeeds gives its output wires a value and leaves all other wires
/// of its caller as they were.
pub proof fn subcircuit_writes_outputs<B: ZKBackend>(
    gates: Seq<Gate>,
    outputs: Seq<u64>,
    inputs: Seq<u64>,
    env: Env,
    weight: Option<nat>,
    depth: nat,
    m: Machine,
)
    ensures
        ({
            let (later, r) = run_subcircuit::<B>(gates, outputs, inputs, env, weight, depth, m);
            r is Ok ==> {
                &&& kept_in(m.scope, later.scope)
                &&& forall|id: u64|
                    later.scope.contains_key(id) <==> m.scope.contains_key(id)
                        || outputs.contains(id)
            }
        }),
{
    let (s1, inner, r1) = loaded::<B>(
        m.backend,
        m.scope,
        inputs,
        outputs.len(),
        0,
        Map::empty(),
    );
    let (m2, r2) = run_gates::<B>(
        gates,
        0,
        env,
        weight,
        depth,
        Machine { backend: s1, scope: inner, ..m },
    );
    assert(outputs.skip(0) =~= outputs);
    lemma_unloaded::<B>(Machine { scope: m.scope, ..m2 }, m2.scope, outputs, 0);
}

proof fn lemma_merged<B: ZKBackend>(
    m: Machine,
    is_boolean: bool,
    scopes: Seq<Scope>,
    weights: Seq<nat>,
    outputs: Seq<u64>,
    k: nat,
)
    ensures
        merged::<B>(m, is_boolean, scopes, weights, outputs, k).1 is Ok ==> kept_in(
            m.scope,
            merged::<B>(m, is_boolean, scopes, weights, outputs, k).0.scope,
        ),
        merged::<B>(m, is_boolean, scopes, weights, outputs, k).0 == (Machine {
            backend: merged::<B>(m, is_boolean, scopes, weights, outputs, k).0.backend,
            scope: merged::<B>(m, is_boolean, scopes, weights, outputs, k).0.scope,
            ..m
        }),
    decreases outputs.len() - k,
{
    if k < outputs.len() {
        match B::answer(m.backend, Request::Zero) {
            Err(_) => {},
            Ok(z) => {
                let (s1, zero) = ask::<B>(
                    m.backend,
                    Request::Constant(z),
                );
                let reply = weighted_sum::<B>(
                    s1,
                    is_boolean,
                    scopes,
                    weights,
                    outputs[k as int],
                    0,
                    zero,
                );
                let (m1, r) = store(m, reply, outputs[k as int]);
                if r is Ok {
                    lemma_merged::<B>(m1, is_boolean, scopes, weights, outputs, k + 1);
                    assert(kept_in(m.scope, m1.scope));
                }
            },
        }
    }
}

proof fn lemma_turns<B: ZKBackend>(
    name: Text,
    current: int,
    last: int,
    body: ForLoopBody,
    env: Env,
    weight: Option<nat>,
    depth: nat,
    m: Machine,
)
    ensures
        run_for::<B>(name, current, last, body, env, weight, depth, m).1 is Ok ==> kept_in(
            m.scope,
            run_for::<B>(name, current, last, body, env, weight, depth, m).0.scope,
        ),
    decreases last - current + 1,
{
    if current <= last {
        let m0 = Machine { iterators: m.iterators.insert(name, current as u64), ..m };
        let (m1, r) = run_turn::<B>(body, env, weight, depth, m0);
        if r is Ok {
            match body {
                ForLoopBody::IterExprCall(called, outputs, inputs) => {
                    let f = known(env.functions, called@)->Some_0;
                    subcircuit_writes_outputs::<B>(
                        f.body,
                        evaluated(outputs@, m0.iterators)->Ok_0,
                        evaluated(inputs@, m0.iterators)->Ok_0,
                        env,
                        weight,
                        (depth - 1) as nat,
                        Machine { iterators: Map::empty(), ..m0 },
                    );
                },
                ForLoopBody::IterExprAnonCall(outputs, inputs, _, _, subcircuit) => {
                    subcircuit_writes_outputs::<B>(
                        subcircuit@,
                        evaluated(outputs@, m0.iterators)->Ok_0,
                        evaluated(inputs@, m0.iterators)->Ok_0,
                        env,
                        weight,
                        depth,
                        m0,
                    );
                },
            }
            lemma_turns::<B>(name, current + 1, last, body, env, weight, depth, m1);
        }
    }
}

proof fn lemma_cases<B: ZKBackend>(
    condition: u64,
    outputs: Seq<u64>,
    cases: Seq<Vec<u8>>,
    branches: Seq<CaseInvoke>,
    k: nat,
    instances: Seq<nat>,
    witnesses: Seq<nat>,
    env: Env,
    weight: Option<nat>,
    depth: nat,
    m: Machine,
    done: Branches,
)
    ensures
        ({
            let later = run_cases::<B>(
                condition,
                outputs,
                cases,
                branches,
                k,
                instances,
                witnesses,
                env,
                weight,
                depth,
                m,
                done,
            ).0;
            later == (Machine { backend: later.backend, iterators: later.iterators, ..m })
        }),
    decreases branches.len() - k,
{
    if k < cases.len() && k < branches.len() && look(m.scope, condition) is Ok {
        let c = look(m.scope, condition)->Ok_0;
        let (s1, own) = nested_weight::<B>(m.backend, env, weight, cases[k as int]@, c);
        if own is Ok {
            let w = own->Ok_0;
            let (m2, r) = run_branch::<B>(
                branches[k as int],
                outputs,
                env,
                w,
                depth,
                Machine { backend: s1, instances, witnesses, ..m },
            );
            let m3 = Machine { backend: m2.backend, iterators: m2.iterators, ..m };
            if r is Ok {
                lemma_cases::<B>(
                    condition,
                    outputs,
                    cases,
                    branches,
                    k + 1,
                    instances,
                    witnesses,
                    env,
                    weight,
                    depth,
                    m3,
                    (done.0.push(m2.scope), done.1.push(w)),
                );
            }
        }
    }
}

/// A switch that succeeds takes as many instance and witness values as the branch that
/// takes most, as far as there are so many, whichever branch is selected.
pub proof fn switch_takes_most<B: ZKBackend>(
    condition: u64,
    outputs: Seq<WireListElement>,
    cases: Seq<Vec<u8>>,
    branches: Seq<CaseInvoke>,
    env: Env,
    weight: Option<nat>,
    depth: nat,
    m: Machine,
)
    ensures
        ({
            let (later, r) = run_switch::<B>(
                condition,
                outputs,
                cases,
                branches,
                env,
                weight,
                depth,
                m,
            );
            r is Ok ==> {
                let (most_i, most_w) = most_counts(env.functions, branches, 0, 0, 0)->Ok_0;
                &&& later.instances == m.instances.skip(smaller(m.instances.len(), most_i) as int)
                &&& later.witnesses == m.witnesses.skip(smaller(m.witnesses.len(), most_w) as int)
                &&& kept_in(m.scope, later.scope)
            }
        }),
{
    let most = most_counts(env.functions, branches, 0, 0, 0);
    if most is Ok && expanded(outputs) is Ok {
        let i = smaller(m.instances.len(), most->Ok_0.0) as int;
        let w = smaller(m.witnesses.len(), most->Ok_0.1) as int;
        let m1 = Machine { instances: m.instances.skip(i), witnesses: m.witnesses.skip(w), ..m };
        let outs = expanded(outputs)->Ok_0;
        let none: Branches = (Seq::empty(), Seq::empty());
        lemma_cases::<B>(
            condition,
            outs,
            cases,
            branches,
            0,
            m.instances.take(i),
            m.witnesses.take(w),
            env,
            weight,
            depth,
            m1,
            none,
        );
        let (m2, r) = run_cases::<B>(
            condition,
            outs,
            cases,
            branches,
            0,
            m.instances.take(i),
            m.witnesses.take(w),
            env,
            weight,
            depth,
            m1,
            none,
        );
        if r is Ok {
            lemma_merged::<B>(m2, env.is_boolean, r->Ok_0.0, r->Ok_0.1, outs, 0);
        }
    }
}

/// A gate that succeeds leaves every wire that has a value as it was, unless it is one that
/// forgets wires.
pub proof fn gate_keeps_wires<B: ZKBackend>(
    gate: Gate,
    env: Env,
    weight: Option<nat>,
    depth: nat,
    m: Machine,
)
    requires
        !(gate is Free),
        run_gate::<B>(gate, env, weight, depth, m).1 is Ok,
    ensures
        kept_in(m.scope, run_gate::<B>(gate, env, weight, depth, m).0.scope),
{
    match gate {
        Gate::Call(name, outputs, inputs) => {
            let f = known(env.functions, name@)->Some_0;
            subcircuit_writes_outputs::<B>(
                f.body,
                expanded(outputs@)->Ok_0,
                expanded(inputs@)->Ok_0,
                env,
                weight,
                (depth - 1) as nat,
                Machine { iterators: Map::empty(), ..m },
            );
        },
        Gate::AnonCall(outputs, inputs, _, _, subcircuit) => {
            subcircuit_writes_outputs::<B>(
                subcircuit@,
                expanded(outputs@)->Ok_0,
                expanded(inputs@)->Ok_0,
                env,
                weight,
                depth,
                m,
            );
        },
        Gate::For(name, first, last, _, body) => {
            lemma_turns::<B>(name@, first as int, last as int, body, env, weight, depth, m);
        },
        Gate::Switch(condition, outputs, cases, branches) => {
            switch_takes_most::<B>(
                condition,
                outputs@,
                cases@,
                branches@,
                env,
                weight,
                depth,
                m,
            );
        },
        _ => {},
    }
}

/// A gate that forgets wires leaves all other wires as they were.
pub proof fn free_forgets_range(m: Machine, first: int, last: int)
    requires
        0 <= first,
        last <= u64::MAX,
        freed(m, first, last).1 is Ok,
    ensures
        forall|id: u64|
            freed(m, first, last).0.scope.contains_key(id) <==> m.scope.contains_key(id) && !(first
                <= id <= last),
        kept_in(freed(m, first, last).0.scope, m.scope),
    decreases last - first + 1,
{
    if first <= last {
        free_forgets_range(
            Machine { scope: m.scope.remove(first as u64), ..m },
            first + 1,
            last,
        );
    }
}

/// A call of a function gives the same whatever iterators its caller has, and leaves
/// them as they were.
pub proof fn calls_see_no_iterators<B: ZKBackend>(
    f: FunctionV,
    outputs: Seq<u64>,
    inputs: Seq<u64>,
    env: Env,
    weight: Option<nat>,
    depth: nat,
    m: Machine,
    iterators: Map<Text, u64>,
)
    ensures
        ({
            let (m1, r1) = run_function::<B>(f, outputs, inputs, env, weight, depth, m);
            run_function::<B>(
                f,
                outputs,
                inputs,
                env,
                weight,
                depth,
                Machine { iterators, ..m },
            ) == (Machine { iterators, ..m1 }, r1)
        }),
{
}

/// Whether all iterators are iterators of another map, with the same values.
pub open spec fn among(iterators: Map<Text, u64>, others: Map<Text, u64>) -> bool {
    forall|name: Text|
        #![trigger iterators.contains_key(name)]
        iterators.contains_key(name) ==> others.contains_key(name) && others[name]
            == iterators[name]
}

proof fn lemma_unloaded_iterators<B: ZKBackend>(
    m: Machine,
    inner: Scope,
    outputs: Seq<u64>,
    k: nat,
)
    ensures
        unloaded::<B>(m, inner, outputs, k).0.iterators == m.iterators,
    decreases outputs.len() - k,
{
    if k < outputs.len() && look(inner, k as u64) is Ok {
        let w = look(inner, k as u64)->Ok_0;
        let (m1, r) = store(m, ask::<B>(m.backend, Request::Copy(w)), outputs[k as int]);
        if r is Ok {
            lemma_unloaded_iterators::<B>(m1, inner, outputs, k + 1);
        }
    }
}

proof fn lemma_freed_iterators(m: Machine, first: int, last: int)
    ensures
        freed(m, first, last).0.iterators == m.iterators,
    decreases last - first + 1,
{
    if first <= last && m.scope.contains_key(first as u64) {
        lemma_freed_iterators(
            Machine { scope: m.scope.remove(first as u64), ..m },
            first + 1,
            last,
        );
    }
}

/// No iterator outlives its loop: gates that succeed leave no iterators but those that
/// were there before.
pub proof fn iterators_end_with_loops<B: ZKBackend>(
    gates: Seq<Gate>,
    k: nat,
    env: Env,
    weight: Option<nat>,
    depth: nat,
    m: Machine,
)
    ensures
        run_gates::<B>(gates, k, env, weight, depth, m).1 is Ok ==> among(
            run_gates::<B>(gates, k, env, weight, depth, m).0.iterators,
            m.iterators,
        ),
    decreases depth, gates, gates.len() - k,
{
    if k < gates.len() {
        let (m1, r) = run_gate::<B>(gates[k as int], env, weight, depth, m);
        lemma_gate_iterators::<B>(gates[k as int], env, weight, depth, m);
        if r is Ok {
            iterators_end_with_loops::<B>(gates, k + 1, env, weight, depth, m1);
        }
    }
}

proof fn lemma_subcircuit_iterators<B: ZKBackend>(
    gates: Seq<Gate>,
    outputs: Seq<u64>,
    inputs: Seq<u64>,
    env: Env,
    weight: Option<nat>,
    depth: nat,
    m: Machine,
)
    ensures
        run_subcircuit::<B>(gates, outputs, inputs, env, weight, depth, m).1 is Ok ==> among(
            run_subcircuit::<B>(gates, outputs, inputs, env, weight, depth, m).0.iterators,
            m.iterators,
        ),
    decreases depth, gates, gates.len() + 1,
{
    let (s1, inner, r1) = loaded::<B>(
        m.backend,
        m.scope,
        inputs,
        outputs.len(),
        0,
        Map::empty(),
    );
    let m1 = Machine { backend: s1, scope: inner, ..m };
    iterators_end_with_loops::<B>(gates, 0, env, weight, depth, m1);
    let (m2, r2) = run_gates::<B>(gates, 0, env, weight, depth, m1);
    lemma_unloaded_iterators::<B>(Machine { scope: m.scope, ..m2 }, m2.scope, outputs, 0);
}

proof fn lemma_turn_iterators<B: ZKBackend>(
    body: ForLoopBody,
    env: Env,
    weight: Option<nat>,
    depth: nat,
    m: Machine,
)
    ensures
        run_turn::<B>(body, env, weight, depth, m).1 is Ok ==> among(
            run_turn::<B>(body, env, weight, depth, m).0.iterators,
            m.iterators,
        ),
    decreases depth, body, 0int,
{
    match body {
        ForLoopBody::IterExprAnonCall(outputs, inputs, _, _, subcircuit) => {
            let outs = evaluated(outputs@, m.iterators);
            let ins = evaluated(inputs@, m.iterators);
            if outs is Ok && ins is Ok {
                lemma_subcircuit_iterators::<B>(
                    subcircuit@,
                    outs->Ok_0,
                    ins->Ok_0,
                    env,
                    weight,
                    depth,
                    m,
                );
            }
        },
        _ => {},
    }
}

proof fn lemma_for_iterators<B: ZKBackend>(
    name: Text,
    current: int,
    last: int,
    body: ForLoopBody,
    env: Env,
    weight: Option<nat>,
    depth: nat,
    m: Machine,
)
    ensures
        run_for::<B>(name, current, last, body, env, weight, depth, m).1 is Ok ==> among(
            run_for::<B>(name, current, last, body, env, weight, depth, m).0.iterators,
            m.iterators.remove(name),
        ),
    decreases depth, body, last - current + 2,
{
    if current <= last {
        let m0 = Machine { iterators: m.iterators.insert(name, current as u64), ..m };
        lemma_turn_iterators::<B>(body, env, weight, depth, m0);
        let (m1, r) = run_turn::<B>(body, env, weight, depth, m0);
        if r is Ok {
            lemma_for_iterators::<B>(name, current + 1, last, body, env, weight, depth, m1);
        }
    }
}

/// A branch that succeeds leaves no iterators but those that were there before.
pub proof fn branch_ends_with_loops<B: ZKBackend>(
    branch: CaseInvoke,
    outputs: Seq<u64>,
    env: Env,
    weight: nat,
    depth: nat,
    m: Machine,
)
    ensures
        run_branch::<B>(branch, outputs, env, weight, depth, m).1 is Ok ==> among(
            run_branch::<B>(branch, outputs, env, weight, depth, m).0.iterators,
            m.iterators,
        ),
    decreases depth, branch, 0int,
{
    match branch {
        CaseInvoke::AbstractAnonCall(inputs, _, _, subcircuit) => {
            if expanded(inputs@) is Ok {
                let ins = expanded(inputs@)->Ok_0;
                let (s1, scope, r) = gathered::<B>(m.backend, m.scope, ins, 0, Map::empty());
                lemma_subcircuit_iterators::<B>(
                    subcircuit@,
                    outputs,
                    ins,
                    env,
                    Some(weight),
                    depth,
                    Machine { backend: s1, scope, ..m },
                );
            }
        },
        _ => {},
    }
}

proof fn lemma_cases_iterators<B: ZKBackend>(
    condition: u64,
    outputs: Seq<u64>,
    cases: Seq<Vec<u8>>,
    branches: Seq<CaseInvoke>,
    k: nat,
    instances: Seq<nat>,
    witnesses: Seq<nat>,
    env: Env,
    weight: Option<nat>,
    depth: nat,
    m: Machine,
    done: Branches,
)
    ensures
        ({
            let (later, r) = run_cases::<B>(
                condition,
                outputs,
                cases,
                branches,
                k,
                instances,
                witnesses,
                env,
                weight,
                depth,
                m,
                done,
            );
            r is Ok ==> among(later.iterators, m.iterators)
        }),
    decreases depth, branches, branches.len() - k,
{
    if k < cases.len() && k < branches.len() && look(m.scope, condition) is Ok {
        let c = look(m.scope, condition)->Ok_0;
        let (s1, own) = nested_weight::<B>(m.backend, env, weight, cases[k as int]@, c);
        if own is Ok {
            let w = own->Ok_0;
            let m1 = Machine { backend: s1, instances, witnesses, ..m };
            branch_ends_with_loops::<B>(branches[k as int], outputs, env, w, depth, m1);
            let (m2, r) = run_branch::<B>(branches[k as int], outputs, env, w, depth, m1);
            let m3 = Machine { backend: m2.backend, iterators: m2.iterators, ..m };
            if r is Ok {
                lemma_cases_iterators::<B>(
                    condition,
                    outputs,
                    cases,
                    branches,
                    k + 1,
                    instances,
                    witnesses,
                    env,
                    weight,
                    depth,
                    m3,
                    (done.0.push(m2.scope), done.1.push(w)),
                );
            }
        }
    }
}

proof fn lemma_switch_iterators<B: ZKBackend>(
    condition: u64,
    outputs: Seq<WireListElement>,
    cases: Seq<Vec<u8>>,
    branches: Seq<CaseInvoke>,
    env: Env,
    weight: Option<nat>,
    depth: nat,
    m: Machine,
)
    ensures
        ({
            let (later, r) = run_switch::<B>(
                condition,
                outputs,
                cases,
                branches,
                env,
                weight,
                depth,
                m,
            );
            r is Ok ==> among(later.iterators, m.iterators)
        }),
    decreases depth, branches, branches.len() + 1,
{
    let most = most_counts(env.functions, branches, 0, 0, 0);
    if most is Ok && expanded(outputs) is Ok {
        let i = smaller(m.instances.len(), most->Ok_0.0) as int;
        let w = smaller(m.witnesses.len(), most->Ok_0.1) as int;
        let m1 = Machine { instances: m.instances.skip(i), witnesses: m.witnesses.skip(w), ..m };
        let outs = expanded(outputs)->Ok_0;
        let none: Branches = (Seq::empty(), Seq::empty());
        lemma_cases_iterators::<B>(
            condition,
            outs,
            cases,
            branches,
            0,
            m.instances.take(i),
            m.witnesses.take(w),
            env,
            weight,
            depth,
            m1,
            none,
        );
        let (m2, r) = run_cases::<B>(
            condition,
            outs,
            cases,
            branches,
            0,
            m.instances.take(i),
            m.witnesses.take(w),
            env,
            weight,
            depth,
            m1,
            none,
        );
        if r is Ok {
            lemma_merged::<B>(m2, env.is_boolean, r->Ok_0.0, r->Ok_0.1, outs, 0);
        }
    }
}

proof fn lemma_gate_iterators<B: ZKBackend>(
    gate: Gate,
    env: Env,
    weight: Option<nat>,
    depth: nat,
    m: Machine,
)
    ensures
        run_gate::<B>(gate, env, weight, depth, m).1 is Ok ==> among(
            run_gate::<B>(gate, env, weight, depth, m).0.iterators,
            m.iterators,
        ),
    decreases depth, gate, 0int,
{
    match gate {
        Gate::AnonCall(outputs, inputs, _, _, subcircuit) => {
            if expanded(outputs@) is Ok && expanded(inputs@) is Ok {
                lemma_subcircuit_iterators::<B>(
                    subcircuit@,
                    expanded(outputs@)->Ok_0,
                    expanded(inputs@)->Ok_0,
                    env,
                    weight,
                    depth,
                    m,
                );
            }
        },
        Gate::For(name, first, last, _, body) => {
            lemma_for_iterators::<B>(
                name@,
                first as int,
                last as int,
                body,
                env,
                weight,
                depth,
                m,
            );
        },
        Gate::Switch(condition, outputs, cases, branches) => {
            lemma_switch_iterators::<B>(
                condition,
                outputs@,
                cases@,
                branches@,
                env,
                weight,
                depth,
                m,
            );
        },
        Gate::Free(first, last) => {
            lemma_freed_iterators(
                m,
                first as int,
                match last {
                    Some(id) => id as int,
                    None => first as int,
                },
            );
        },
        _ => {},
    }
}

} // verus!
