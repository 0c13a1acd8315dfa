//! Gates that succeed do so whatever other iterators are running.

use crate::consumers::backend::{Request, ZKBackend};
use crate::consumers::scope_law::among;
use crate::consumers::semantics::{
    ask, freed, gathered, known, loaded, look, merged, most_counts, nested_weight, run_branch,
    run_cases, run_for, run_gate, run_gates, run_subcircuit, run_switch, run_turn, smaller, store,
    unloaded, weighted_sum, Branches, Env, Machine, Outcome, Scope, Text,
};
use crate::structs::function::{CaseInvoke, ForLoopBody};
use crate::structs::gate::Gate;
use crate::structs::iterators::{
    evaluated, iterexpr_ids, iterexpr_value, IterExprListElement, IterExprWireNumber,
};
use crate::structs::wire::{expanded, WireListElement};
use vstd::prelude::*;

verus! {

/// A machine with other iterators.
pub open spec fn iterating(m: Machine, iterators: Map<Text, u64>) -> Machine {
    Machine { iterators, ..m }
}

/// Whether an outcome, where it is a success, is another one but for more iterators.
pub open spec fn same_with_more(a: Outcome, b: Outcome) -> bool {
    a.1 is Ok ==> {
        &&& b.1 is Ok
        &&& b.0 == iterating(a.0, b.0.iterators)
        &&& among(a.0.iterators, b.0.iterators)
    }
}

proof fn lemma_value(e: IterExprWireNumber, fewer: Map<Text, u64>, more: Map<Text, u64>)
    requires
        among(fewer, more),
        iterexpr_value(e, fewer) is Ok,
    ensures
        iterexpr_value(e, more) == iterexpr_value(e, fewer),
    decreases e,
{
    match e {
        IterExprWireNumber::Const(_) => {},
        IterExprWireNumber::Iterator(name) => {
            assert(fewer.contains_key(name@));
        },
        IterExprWireNumber::Add(a, b) => {
            lemma_value(*a, fewer, more);
            lemma_value(*b, fewer, more);
        },
        IterExprWireNumber::Sub(a, b) => {
            lemma_value(*a, fewer, more);
            lemma_value(*b, fewer, more);
        },
        IterExprWireNumber::Mul(a, b) => {
            lemma_value(*a, fewer, more);
            lemma_value(*b, fewer, more);
        },
        IterExprWireNumber::DivConst(a, _) => {
            lemma_value(*a, fewer, more);
        },
    }
}

/// Wires that can be computed are computed just so with more iterators.
pub proof fn wires_with_more_iterators(
    list: Seq<IterExprListElement>,
    fewer: Map<Text, u64>,
    more: Map<Text, u64>,
)
    requires
        among(fewer, more),
        evaluated(list, fewer) is Ok,
    ensures
        evaluated(list, more) == evaluated(list, fewer),
    decreases list.len(),
{
    if list.len() > 0 {
        match list[0] {
            IterExprListElement::Single(x) => {
                lemma_value(x, fewer, more);
            },
            IterExprListElement::Range(x, y) => {
                lemma_value(x, fewer, more);
                lemma_value(y, fewer, more);
            },
        }
        assert(iterexpr_ids(list[0], more) == iterexpr_ids(list[0], fewer));
        wires_with_more_iterators(list.drop_first(), fewer, more);
    }
}

proof fn more_unloaded<B: ZKBackend>(
    m: Machine,
    inner: Scope,
    outputs: Seq<u64>,
    k: nat,
    more: Map<Text, u64>,
)
    ensures
        unloaded::<B>(m, inner, outputs, k).0.iterators == m.iterators,
        unloaded::<B>(iterating(m, more), inner, outputs, k) == (
            iterating(unloaded::<B>(m, inner, outputs, k).0, more),
            unloaded::<B>(m, inner, outputs, k).1,
        ),
    decreases outputs.len() - k,
{
    if k < outputs.len() && look(inner, k as u64) is Ok {
        let r = Request::Copy(look(inner, k as u64)->Ok_0);
        let (m1, stored) = store(m, ask::<B>(m.backend, r), outputs[k as int]);
        if stored is Ok {
            more_unloaded::<B>(m1, inner, outputs, k + 1, more);
        }
    }
}

proof fn more_merged<B: ZKBackend>(
    m: Machine,
    is_boolean: bool,
    done: Branches,
    outputs: Seq<u64>,
    k: nat,
    more: Map<Text, u64>,
)
    ensures
        merged::<B>(m, is_boolean, done.0, done.1, outputs, k).0.iterators == m.iterators,
        merged::<B>(iterating(m, more), is_boolean, done.0, done.1, outputs, k) == (
            iterating(merged::<B>(m, is_boolean, done.0, done.1, outputs, k).0, more),
            merged::<B>(m, is_boolean, done.0, done.1, outputs, k).1,
        ),
    decreases outputs.len() - k,
{
    if k < outputs.len() && B::answer(m.backend, Request::Zero) is Ok {
        let r = Request::Constant(B::answer(m.backend, Request::Zero)->Ok_0);
        let (s1, zero) = ask::<B>(m.backend, r);
        let id = outputs[k as int];
        let sum = weighted_sum::<B>(s1, is_boolean, done.0, done.1, id, 0, zero);
        let (m1, stored) = store(m, sum, id);
        if stored is Ok {
            more_merged::<B>(m1, is_boolean, done, outputs, k + 1, more);
        }
    }
}

proof fn more_freed(m: Machine, first: int, last: int, more: Map<Text, u64>)
    ensures
        freed(m, first, last).0.iterators == m.iterators,
        freed(iterating(m, more), first, last) == (
            iterating(freed(m, first, last).0, more),
            freed(m, first, last).1,
        ),
    decreases last - first + 1,
{
    if first <= last && m.scope.contains_key(first as u64) {
        more_freed(
            Machine { scope: m.scope.remove(first as u64), ..m },
            first + 1,
            last,
            more,
        );
    }
}

/// Gates that succeed leave the same, but for iterators, where more iterators are
/// running.
pub proof fn gates_with_more_iterators<B: ZKBackend>(
    gates: Seq<Gate>,
    k: nat,
    env: Env,
    weight: Option<nat>,
    depth: nat,
    m: Machine,
    more: Map<Text, u64>,
)
    requires
        among(m.iterators, more),
    ensures
        same_with_more(
            run_gates::<B>(gates, k, env, weight, depth, m),
            run_gates::<B>(gates, k, env, weight, depth, iterating(m, more)),
        ),
    decreases depth, gates, gates.len() - k,
{
    if k < gates.len() {
        let gate = gates[k as int];
        more_gate::<B>(gate, env, weight, depth, m, more);
        let (a, r) = run_gate::<B>(gate, env, weight, depth, m);
        let b = run_gate::<B>(gate, env, weight, depth, iterating(m, more)).0;
        if r is Ok {
            gates_with_more_iterators::<B>(gates, k + 1, env, weight, depth, a, b.iterators);
        }
    }
}

proof fn more_subcircuit<B: ZKBackend>(
    gates: Seq<Gate>,
    outputs: Seq<u64>,
    inputs: Seq<u64>,
    env: Env,
    weight: Option<nat>,
    depth: nat,
    m: Machine,
    more: Map<Text, u64>,
)
    requires
        among(m.iterators, more),
    ensures
        same_with_more(
            run_subcircuit::<B>(gates, outputs, inputs, env, weight, depth, m),
            run_subcircuit::<B>(gates, outputs, inputs, env, weight, depth, iterating(m, more)),
        ),
    decreases depth, gates, gates.len() + 1,
{
    let (s1, inner, r1) = loaded::<B>(
        m.backend,
        m.scope,
        inputs,
        outputs.len(),
        0,
        Map::empty(),
    );
    if r1 is Ok {
        let m1 = Machine { backend: s1, scope: inner, ..m };
        gates_with_more_iterators::<B>(gates, 0, env, weight, depth, m1, more);
        let (m2, r2) = run_gates::<B>(gates, 0, env, weight, depth, m1);
        let b2 = run_gates::<B>(gates, 0, env, weight, depth, iterating(m1, more)).0;
        if r2 is Ok {
            let back = Machine { scope: m.scope, ..m2 };
            more_unloaded::<B>(back, m2.scope, outputs, 0, b2.iterators);
        }
    }
}

proof fn more_turn<B: ZKBackend>(
    body: ForLoopBody,
    env: Env,
    weight: Option<nat>,
    depth: nat,
    m: Machine,
    more: Map<Text, u64>,
)
    requires
        among(m.iterators, more),
    ensures
        same_with_more(
            run_turn::<B>(body, env, weight, depth, m),
            run_turn::<B>(body, env, weight, depth, iterating(m, more)),
        ),
    decreases depth, body, 0int,
{
    match body {
        ForLoopBody::IterExprCall(name, outputs, inputs) => {
            let outs = evaluated(outputs@, m.iterators);
            let ins = evaluated(inputs@, m.iterators);
            if outs is Ok && ins is Ok {
                wires_with_more_iterators(outputs@, m.iterators, more);
                wires_with_more_iterators(inputs@, m.iterators, more);
            }
        },
        ForLoopBody::IterExprAnonCall(outputs, inputs, _, _, subcircuit) => {
            let outs = evaluated(outputs@, m.iterators);
            let ins = evaluated(inputs@, m.iterators);
            if outs is Ok && ins is Ok {
                wires_with_more_iterators(outputs@, m.iterators, more);
                wires_with_more_iterators(inputs@, m.iterators, more);
                more_subcircuit::<B>(
                    subcircuit@,
                    outs->Ok_0,
                    ins->Ok_0,
                    env,
                    weight,
                    depth,
                    m,
                    more,
                );
            }
        },
    }
}

proof fn more_for<B: ZKBackend>(
    name: Text,
    current: int,
    last: int,
    body: ForLoopBody,
    env: Env,
    weight: Option<nat>,
    depth: nat,
    m: Machine,
    more: Map<Text, u64>,
)
    requires
        among(m.iterators, more),
    ensures
        same_with_more(
            run_for::<B>(name, current, last, body, env, weight, depth, m),
            run_for::<B>(name, current, last, body, env, weight, depth, iterating(m, more)),
        ),
    decreases depth, body, last - current + 2,
{
    if current <= last {
        let m0 = iterating(m, m.iterators.insert(name, current as u64));
        let next = more.insert(name, current as u64);
        more_turn::<B>(body, env, weight, depth, m0, next);
        let (a, r) = run_turn::<B>(body, env, weight, depth, m0);
        let b = run_turn::<B>(body, env, weight, depth, iterating(m0, next)).0;
        if r is Ok {
            more_for::<B>(
                name,
                current + 1,
                last,
                body,
                env,
                weight,
                depth,
                a,
                b.iterators,
            );
        }
    }
}

/// A branch that succeeds leaves the same, but for iterators, where more iterators are
/// running.
pub proof fn branch_with_more_iterators<B: ZKBackend>(
    branch: CaseInvoke,
    outputs: Seq<u64>,
    env: Env,
    weight: nat,
    depth: nat,
    m: Machine,
    more: Map<Text, u64>,
)
    requires
        among(m.iterators, more),
    ensures
        same_with_more(
            run_branch::<B>(branch, outputs, env, weight, depth, m),
            run_branch::<B>(branch, outputs, env, weight, depth, iterating(m, more)),
        ),
    decreases depth, branch, 0int,
{
    match branch {
        CaseInvoke::AbstractGateCall(_, _) => {},
        CaseInvoke::AbstractAnonCall(inputs, _, _, subcircuit) => {
            if expanded(inputs@) is Ok {
                let ins = expanded(inputs@)->Ok_0;
                let (s1, scope, r) = gathered::<B>(m.backend, m.scope, ins, 0, Map::empty());
                more_subcircuit::<B>(
                    subcircuit@,
                    outputs,
                    ins,
                    env,
                    Some(weight),
                    depth,
                    Machine { backend: s1, scope, ..m },
                    more,
                );
            }
        },
    }
}

proof fn more_cases<B: ZKBackend>(
    condition: u64,
    outputs: Seq<u64>,
    cases: Seq<Vec<u8>>,
    branches: Seq<CaseInvoke>,
    k: nat,
    instances: Seq<nat>,
    witnesses: Seq<nat>,
    env: Env,
    weight: Option<nat>,
    depth: nat,
    m: Machine,
    more: Map<Text, u64>,
    done: Branches,
)
    requires
        among(m.iterators, more),
    ensures
        ({
            let (a, ra) = run_cases::<B>(
                condition,
                outputs,
                cases,
                branches,
                k,
                instances,
                witnesses,
                env,
                weight,
                depth,
                m,
                done,
            );
            let (b, rb) = run_cases::<B>(
                condition,
                outputs,
                cases,
                branches,
                k,
                instances,
                witnesses,
                env,
                weight,
                depth,
                iterating(m, more),
                done,
            );
            ra is Ok ==> rb == ra && b == iterating(a, b.iterators) && among(
                a.iterators,
                b.iterators,
            )
        }),
    decreases depth, branches, branches.len() - k,
{
    if k < cases.len() && k < branches.len() && look(m.scope, condition) is Ok {
        let c = look(m.scope, condition)->Ok_0;
        let (s1, own) = nested_weight::<B>(m.backend, env, weight, cases[k as int]@, c);
        if own is Ok {
            let w = own->Ok_0;
            let branch = branches[k as int];
            let m1 = Machine { backend: s1, instances, witnesses, ..m };
            branch_with_more_iterators::<B>(branch, outputs, env, w, depth, m1, more);
            let (m2, r) = run_branch::<B>(branch, outputs, env, w, depth, m1);
            let b2 = run_branch::<B>(branch, outputs, env, w, depth, iterating(m1, more)).0;
            if r is Ok {
                more_cases::<B>(
                    condition,
                    outputs,
                    cases,
                    branches,
                    k + 1,
                    instances,
                    witnesses,
                    env,
                    weight,
                    depth,
                    Machine { backend: m2.backend, iterators: m2.iterators, ..m },
                    b2.iterators,
                    (done.0.push(m2.scope), done.1.push(w)),
                );
            }
        }
    }
}

proof fn more_switch<B: ZKBackend>(
    condition: u64,
    outputs: Seq<WireListElement>,
    cases: Seq<Vec<u8>>,
    branches: Seq<CaseInvoke>,
    env: Env,
    weight: Option<nat>,
    depth: nat,
    m: Machine,
    more: Map<Text, u64>,
)
    requires
        among(m.iterators, more),
    ensures
        same_with_more(
            run_switch::<B>(condition, outputs, cases, branches, env, weight, depth, m),
            run_switch::<B>(
                condition,
                outputs,
                cases,
                branches,
                env,
                weight,
                depth,
                iterating(m, more),
            ),
        ),
    decreases depth, branches, branches.len() + 1,
{
    let most = most_counts(env.functions, branches, 0, 0, 0);
    if most is Ok && expanded(outputs) is Ok {
        let i = smaller(m.instances.len(), most->Ok_0.0) as int;
        let w = smaller(m.witnesses.len(), most->Ok_0.1) as int;
        let m1 = Machine { instances: m.instances.skip(i), witnesses: m.witnesses.skip(w), ..m };
        let outs = expanded(outputs)->Ok_0;
        let none: Branches = (Seq::empty(), Seq::empty());
        more_cases::<B>(
            condition,
            outs,
            cases,
            branches,
            0,
            m.instances.take(i),
            m.witnesses.take(w),
            env,
            weight,
            depth,
            m1,
            more,
            none,
        );
        let (a, r) = run_cases::<B>(
            condition,
            outs,
            cases,
            branches,
            0,
            m.instances.take(i),
            m.witnesses.take(w),
            env,
            weight,
            depth,
            m1,
            none,
        );
        let b = run_cases::<B>(
            condition,
            outs,
            cases,
            branches,
            0,
            m.instances.take(i),
            m.witnesses.take(w),
            env,
            weight,
            depth,
            iterating(m1, more),
            none,
        ).0;
        if r is Ok {
            more_merged::<B>(a, env.is_boolean, r->Ok_0, outs, 0, b.iterators);
        }
    }
}

proof fn more_elementary<B: ZKBackend>(
    gate: Gate,
    env: Env,
    weight: Option<nat>,
    depth: nat,
    m: Machine,
    more: Map<Text, u64>,
)
    requires
        among(m.iterators, more),
        !(gate is Call || gate is AnonCall || gate is For || gate is Switch),
    ensures
        same_with_more(
            run_gate::<B>(gate, env, weight, depth, m),
            run_gate::<B>(gate, env, weight, depth, iterating(m, more)),
        ),
{
    match gate {
        Gate::Free(first, last) => {
            more_freed(
                m,
                first as int,
                match last {
                    Some(id) => id as int,
                    None => first as int,
                },
                more,
            );
        },
        _ => {},
    }
}

proof fn more_gate<B: ZKBackend>(
    gate: Gate,
    env: Env,
    weight: Option<nat>,
    depth: nat,
    m: Machine,
    more: Map<Text, u64>,
)
    requires
        among(m.iterators, more),
    ensures
        same_with_more(
            run_gate::<B>(gate, env, weight, depth, m),
            run_gate::<B>(gate, env, weight, depth, iterating(m, more)),
        ),
    decreases depth, gate, 0int,
{
    match gate {
        Gate::AnonCall(outputs, inputs, _, _, subcircuit) => {
            if expanded(outputs@) is Ok && expanded(inputs@) is Ok {
                more_subcircuit::<B>(
                    subcircuit@,
                    expanded(outputs@)->Ok_0,
                    expanded(inputs@)->Ok_0,
                    env,
                    weight,
                    depth,
                    m,
                    more,
                );
            }
        },
        Gate::For(name, first, last, _, body) => {
            more_for::<B>(
                name@,
                first as int,
                last as int,
                body,
                env,
                weight,
                depth,
                m,
                more,
            );
        },
        Gate::Switch(condition, outputs, cases, branches) => {
            more_switch::<B>(
                condition,
                outputs@,
                cases@,
                branches@,
                env,
                weight,
                depth,
                m,
                more,
            );
        },
        Gate::Call(_, _, _) => {
            named_calls_see_no_iterators::<B>(gate, env, weight, depth, m, more);
        },
        _ => {
            more_elementary::<B>(gate, env, weight, depth, m, more);
        },
    }
}

/// A call of a named function gives the same whatever iterators are running, and leaves
/// them as they were.
pub proof fn named_calls_see_no_iterators<B: ZKBackend>(
    gate: Gate,
    env: Env,
    weight: Option<nat>,
    depth: nat,
    m: Machine,
    iterators: Map<Text, u64>,
)
    requires
        gate is Call,
    ensures
        run_gate::<B>(gate, env, weight, depth, m).0.iterators == m.iterators,
        run_gate::<B>(gate, env, weight, depth, iterating(m, iterators)) == (
            iterating(run_gate::<B>(gate, env, weight, depth, m).0, iterators),
            run_gate::<B>(gate, env, weight, depth, m).1,
        ),
{
    match gate {
        Gate::Call(name, _, _) => {
            if known(env.functions, name@) is Some {
                assert(iterating(iterating(m, iterators), Map::empty()) == iterating(
                    m,
                    Map::empty(),
                ));
            }
        },
        _ => {},
    }
}

} // verus!
