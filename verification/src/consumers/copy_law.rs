//! Gates that are copies of one another do the same.

use crate::consumers::backend::ZKBackend;
use crate::consumers::semantics::{
    branch_counts, gathered, larger, loaded, look, most_counts, nested_weight, run_branch,
    run_cases, run_for, run_gate, run_gates, run_subcircuit, run_switch, run_turn, smaller,
    Branches, Env, FunctionV, Machine, Text,
};
use crate::structs::copies::{
    same_body, same_branch, same_branches, same_element, same_expression, same_gate, same_gates,
    same_list,
};
use crate::structs::function::{CaseInvoke, ForLoopBody};
use crate::structs::gate::Gate;
use crate::structs::iterators::{
    evaluated, iterexpr_value, IterExprListElement, IterExprWireNumber,
};
use crate::structs::wire::{bytes_of, expanded, WireListElement};
use vstd::prelude::*;

verus! {

/// A copy of an expression comes to the same, whatever iterators are running.
pub proof fn copied_expressions(
    a: IterExprWireNumber,
    b: IterExprWireNumber,
    running: Map<Text, u64>,
)
    requires
        same_expression(a, b),
    ensures
        iterexpr_value(a, running) == iterexpr_value(b, running),
    decreases a,
{
    match (a, b) {
        (IterExprWireNumber::Add(x, y), IterExprWireNumber::Add(z, w)) => {
            copied_expressions(*x, *z, running);
            copied_expressions(*y, *w, running);
        },
        (IterExprWireNumber::Sub(x, y), IterExprWireNumber::Sub(z, w)) => {
            copied_expressions(*x, *z, running);
            copied_expressions(*y, *w, running);
        },
        (IterExprWireNumber::Mul(x, y), IterExprWireNumber::Mul(z, w)) => {
            copied_expressions(*x, *z, running);
            copied_expressions(*y, *w, running);
        },
        (IterExprWireNumber::DivConst(x, _), IterExprWireNumber::DivConst(z, _)) => {
            copied_expressions(*x, *z, running);
        },
        _ => {},
    }
}

/// A copy of a list of computed wires comes to the same wires.
pub proof fn copied_lists(
    a: Seq<IterExprListElement>,
    b: Seq<IterExprListElement>,
    running: Map<Text, u64>,
)
    requires
        same_list(a, b),
    ensures
        evaluated(a, running) == evaluated(b, running),
    decreases a.len(),
{
    if a.len() > 0 {
        assert(same_element(a[0], b[0]));
        match (a[0], b[0]) {
            (IterExprListElement::Single(x), IterExprListElement::Single(z)) => {
                copied_expressions(x, z, running);
            },
            (IterExprListElement::Range(x, y), IterExprListElement::Range(z, w)) => {
                copied_expressions(x, z, running);
                copied_expressions(y, w, running);
            },
            _ => {},
        }
        let (c, d) = (a.drop_first(), b.drop_first());
        assert(same_list(c, d)) by {
            assert forall|i: int| 0 <= i < c.len() implies same_element(
                #[trigger] c[i],
                #[trigger] d[i],
            ) by {
                assert(same_element(a[i + 1], b[i + 1]));
            }
        }
        copied_lists(c, d, running);
    }
}

/// Gates that are copies of one another do the same, with any backend and from any state.
pub proof fn copies_do_the_same<B: ZKBackend>(
    a: Gate,
    b: Gate,
    env: Env,
    weight: Option<nat>,
    depth: nat,
    m: Machine,
)
    requires
        same_gate(a, b),
    ensures
        run_gate::<B>(a, env, weight, depth, m) == run_gate::<B>(b, env, weight, depth, m),
    decreases depth, a, 0int,
{
    match (a, b) {
        (Gate::AnonCall(outs, ins, _, _, gates), Gate::AnonCall(o, i, _, _, others)) => {
            if expanded(outs@) is Ok && expanded(ins@) is Ok {
                same_subcircuit::<B>(
                    gates@,
                    others@,
                    expanded(outs@)->Ok_0,
                    expanded(ins@)->Ok_0,
                    env,
                    weight,
                    depth,
                    m,
                );
            }
        },
        (Gate::For(n, x, y, _, body), Gate::For(_, _, _, _, other)) => {
            same_for::<B>(n@, x as int, y as int, body, other, env, weight, depth, m);
        },
        (Gate::Switch(c, outs, cases, branches), Gate::Switch(_, _, values, others)) => {
            same_switch::<B>(
                c,
                outs@,
                cases@,
                values@,
                branches@,
                others@,
                env,
                weight,
                depth,
                m,
            );
        },
        _ => {},
    }
}

proof fn same_run<B: ZKBackend>(
    a: Seq<Gate>,
    b: Seq<Gate>,
    k: nat,
    env: Env,
    weight: Option<nat>,
    depth: nat,
    m: Machine,
)
    requires
        same_gates(a, b, k),
    ensures
        run_gates::<B>(a, k, env, weight, depth, m) == run_gates::<B>(
            b,
            k,
            env,
            weight,
            depth,
            m,
        ),
    decreases depth, a, a.len() - k,
{
    if k < a.len() {
        copies_do_the_same::<B>(a[k as int], b[k as int], env, weight, depth, m);
        let (m1, r) = run_gate::<B>(a[k as int], env, weight, depth, m);
        if r is Ok {
            same_run::<B>(a, b, k + 1, env, weight, depth, m1);
        }
    }
}

proof fn same_subcircuit<B: ZKBackend>(
    a: Seq<Gate>,
    b: Seq<Gate>,
    outputs: Seq<u64>,
    inputs: Seq<u64>,
    env: Env,
    weight: Option<nat>,
    depth: nat,
    m: Machine,
)
    requires
        same_gates(a, b, 0),
    ensures
        run_subcircuit::<B>(a, outputs, inputs, env, weight, depth, m) == run_subcircuit::<B>(
            b,
            outputs,
            inputs,
            env,
            weight,
            depth,
            m,
        ),
    decreases depth, a, a.len() + 1,
{
    let (s1, inner, r1) = loaded::<B>(
        m.backend,
        m.scope,
        inputs,
        outputs.len(),
        0,
        Map::empty(),
    );
    same_run::<B>(
        a,
        b,
        0,
        env,
        weight,
        depth,
        Machine { backend: s1, scope: inner, ..m },
    );
}

proof fn same_turn<B: ZKBackend>(
    a: ForLoopBody,
    b: ForLoopBody,
    env: Env,
    weight: Option<nat>,
    depth: nat,
    m: Machine,
)
    requires
        same_body(a, b),
    ensures
        run_turn::<B>(a, env, weight, depth, m) == run_turn::<B>(b, env, weight, depth, m),
    decreases depth, a, 0int,
{
    match (a, b) {
        (ForLoopBody::IterExprCall(_, outs, ins), ForLoopBody::IterExprCall(_, o, i)) => {
            copied_lists(outs@, o@, m.iterators);
            copied_lists(ins@, i@, m.iterators);
        },
        (
            ForLoopBody::IterExprAnonCall(outs, ins, _, _, gates),
            ForLoopBody::IterExprAnonCall(o, i, _, _, others),
        ) => {
            copied_lists(outs@, o@, m.iterators);
            copied_lists(ins@, i@, m.iterators);
            if evaluated(outs@, m.iterators) is Ok && evaluated(ins@, m.iterators) is Ok {
                same_subcircuit::<B>(
                    gates@,
                    others@,
                    evaluated(outs@, m.iterators)->Ok_0,
                    evaluated(ins@, m.iterators)->Ok_0,
                    env,
                    weight,
                    depth,
                    m,
                );
            }
        },
        _ => {},
    }
}

proof fn same_for<B: ZKBackend>(
    name: Text,
    current: int,
    last: int,
    a: ForLoopBody,
    b: ForLoopBody,
    env: Env,
    weight: Option<nat>,
    depth: nat,
    m: Machine,
)
    requires
        same_body(a, b),
    ensures
        run_for::<B>(name, current, last, a, env, weight, depth, m) == run_for::<B>(
            name,
            current,
            last,
            b,
            env,
            weight,
            depth,
            m,
        ),
    decreases depth, a, last - current + 2,
{
    if current <= last {
        let start = Machine { iterators: m.iterators.insert(name, current as u64), ..m };
        same_turn::<B>(a, b, env, weight, depth, start);
        let (m1, r) = run_turn::<B>(a, env, weight, depth, start);
        if r is Ok {
            same_for::<B>(name, current + 1, last, a, b, env, weight, depth, m1);
        }
    }
}

proof fn same_branch_counts(functions: Seq<FunctionV>, a: CaseInvoke, b: CaseInvoke)
    requires
        same_branch(a, b),
    ensures
        branch_counts(functions, a) == branch_counts(functions, b),
{
}

proof fn same_counts(
    functions: Seq<FunctionV>,
    a: Seq<CaseInvoke>,
    b: Seq<CaseInvoke>,
    k: nat,
    instances: nat,
    witnesses: nat,
)
    requires
        same_branches(a, b, k),
    ensures
        most_counts(functions, a, k, instances, witnesses) == most_counts(
            functions,
            b,
            k,
            instances,
            witnesses,
        ),
    decreases a.len() - k,
{
    if k < a.len() {
        same_branch_counts(functions, a[k as int], b[k as int]);
        if branch_counts(functions, a[k as int]) is Ok {
            let (i, w) = branch_counts(functions, a[k as int])->Ok_0;
            same_counts(
                functions,
                a,
                b,
                k + 1,
                larger(instances, i),
                larger(witnesses, w),
            );
        }
    }
}

proof fn same_branch_run<B: ZKBackend>(
    a: CaseInvoke,
    b: CaseInvoke,
    outputs: Seq<u64>,
    env: Env,
    weight: nat,
    depth: nat,
    m: Machine,
)
    requires
        same_branch(a, b),
    ensures
        run_branch::<B>(a, outputs, env, weight, depth, m) == run_branch::<B>(
            b,
            outputs,
            env,
            weight,
            depth,
            m,
        ),
    decreases depth, a, 0int,
{
    match (a, b) {
        (
            CaseInvoke::AbstractAnonCall(ins, _, _, gates),
            CaseInvoke::AbstractAnonCall(_, _, _, others),
        ) => {
            if expanded(ins@) is Ok {
                let inputs = expanded(ins@)->Ok_0;
                let (s1, scope, r) = gathered::<B>(
                    m.backend,
                    m.scope,
                    inputs,
                    0,
                    Map::empty(),
                );
                same_subcircuit::<B>(
                    gates@,
                    others@,
                    outputs,
                    inputs,
                    env,
                    Some(weight),
                    depth,
                    Machine { backend: s1, scope, ..m },
                );
            }
        },
        _ => {},
    }
}

proof fn same_cases<B: ZKBackend>(
    condition: u64,
    outputs: Seq<u64>,
    cases: Seq<Vec<u8>>,
    values: Seq<Vec<u8>>,
    a: Seq<CaseInvoke>,
    b: Seq<CaseInvoke>,
    k: nat,
    instances: Seq<nat>,
    witnesses: Seq<nat>,
    env: Env,
    weight: Option<nat>,
    depth: nat,
    m: Machine,
    done: Branches,
)
    requires
        bytes_of(cases) == bytes_of(values),
        same_branches(a, b, k),
    ensures
        run_cases::<B>(
            condition,
            outputs,
            cases,
            a,
            k,
            instances,
            witnesses,
            env,
            weight,
            depth,
            m,
            done,
        ) == run_cases::<B>(
            condition,
            outputs,
            values,
            b,
            k,
            instances,
            witnesses,
            env,
            weight,
            depth,
            m,
            done,
        ),
    decreases depth, a, a.len() - k,
{
    assert(cases.len() == bytes_of(cases).len());
    assert(values.len() == bytes_of(values).len());
    if k < cases.len() && k < a.len() && look(m.scope, condition) is Ok {
        assert(bytes_of(cases)[k as int] == cases[k as int]@);
        assert(bytes_of(values)[k as int] == values[k as int]@);
        let c = look(m.scope, condition)->Ok_0;
        let (s1, own) = nested_weight::<B>(m.backend, env, weight, cases[k as int]@, c);
        if own is Ok {
            let w = own->Ok_0;
            let start = Machine { backend: s1, instances, witnesses, ..m };
            same_branch_run::<B>(a[k as int], b[k as int], outputs, env, w, depth, start);
            let (m2, r) = run_branch::<B>(a[k as int], outputs, env, w, depth, start);
            let m3 = Machine { backend: m2.backend, iterators: m2.iterators, ..m };
            if r is Ok {
                same_cases::<B>(
                    condition,
                    outputs,
                    cases,
                    values,
                    a,
                    b,
                    k + 1,
                    instances,
                    witnesses,
                    env,
                    weight,
                    depth,
                    m3,
                    (done.0.push(m2.scope), done.1.push(w)),
                );
            }
        }
    }
}

proof fn same_switch<B: ZKBackend>(
    condition: u64,
    outputs: Seq<WireListElement>,
    cases: Seq<Vec<u8>>,
    values: Seq<Vec<u8>>,
    a: Seq<CaseInvoke>,
    b: Seq<CaseInvoke>,
    env: Env,
    weight: Option<nat>,
    depth: nat,
    m: Machine,
)
    requires
        bytes_of(cases) == bytes_of(values),
        same_branches(a, b, 0),
    ensures
        run_switch::<B>(condition, outputs, cases, a, env, weight, depth, m) == run_switch::<B>(
            condition,
            outputs,
            values,
            b,
            env,
            weight,
            depth,
            m,
        ),
    decreases depth, a, a.len() + 1,
{
    same_counts(env.functions, a, b, 0, 0, 0);
    let most = most_counts(env.functions, a, 0, 0, 0);
    if most is Ok && expanded(outputs) is Ok {
        let i = smaller(m.instances.len(), most->Ok_0.0) as int;
        let w = smaller(m.witnesses.len(), most->Ok_0.1) as int;
        let m1 = Machine { instances: m.instances.skip(i), witnesses: m.witnesses.skip(w), ..m };
        same_cases::<B>(
            condition,
            expanded(outputs)->Ok_0,
            cases,
            values,
            a,
            b,
            0,
            m.instances.take(i),
            m.witnesses.take(w),
            env,
            weight,
            depth,
            m1,
            (Seq::empty(), Seq::empty()),
        );
    }
}

/// Calls without a name that are copies of one another declare the same numbers of instance
/// and witness values, and loops that are copies declare the same outputs.
pub proof fn copies_declare_the_same(a: Gate, b: Gate)
    requires
        same_gate(a, b),
    ensures
        a matches Gate::AnonCall(outs, ins, x, y, _) ==> (b matches Gate::AnonCall(o, i, z, w, _)
            && outs@ == o@ && ins@ == i@ && x == z && y == w),
        a matches Gate::For(n, x, y, outs, _) ==> (b matches Gate::For(p, z, w, o, _) && n@ == p@
            && x == z && y == w && outs@ == o@),
{
}

} // verus!
