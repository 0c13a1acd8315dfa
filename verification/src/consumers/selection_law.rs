//! What a whole switch comes to in plaintext.

use crate::consumers::backend::BackendState;
use crate::consumers::invariance::{keeps_branch, kept_by_gates};
use crate::consumers::iteration_law::{branch_with_more_iterators, iterating};
use crate::consumers::plaintext::{plain_state, PlaintextBackend};
use crate::consumers::scope_law::{
    among, branch_ends_with_loops, kept_in, subcircuit_writes_outputs,
};
use crate::consumers::semantics::{
    gathered, known, look, merged, most_counts, nested_weight, run_branch, run_cases, run_switch,
    smaller, store, weighted_sum, Branches, Env, Machine, Scope, Text,
};
use crate::consumers::switch_law::{branch_is_one_or_zero, lemma_selected, lemma_total, total};
use crate::number::{le_value, lemma_last_bits};
use crate::prime::prime;
use crate::structs::function::CaseInvoke;
use crate::structs::wire::{expanded, WireListElement};
use vstd::arithmetic::div_mod::lemma_small_mod;
use vstd::prelude::*;

verus! {

/// Whether a case is the condition, modulo the characteristic.
pub open spec fn is_case(p: nat, case: Seq<u8>, condition: nat) -> bool {
    le_value(case) % p == condition % p
}

/// How many branches of a switch are gone through.
pub open spec fn branch_count(cases: Seq<Vec<u8>>, branches: Seq<CaseInvoke>) -> nat {
    smaller(cases.len(), branches.len())
}

/// Whether all cases of a switch differ, modulo the characteristic.
pub open spec fn distinct_cases(p: nat, cases: Seq<Vec<u8>>) -> bool {
    forall|i: int, j: int|
        0 <= i < j < cases.len() ==> le_value((#[trigger] cases[i])@) % p != le_value(
            (#[trigger] cases[j])@,
        ) % p
}

/// What each branch of a switch starts from: the wires and the iterators of the switch,
/// and as many instance and witness values as the branch that takes most takes.
pub open spec fn branch_start(env: Env, branches: Seq<CaseInvoke>, m: Machine) -> Machine {
    let (most_i, most_w) = most_counts(env.functions, branches, 0, 0, 0)->Ok_0;
    Machine {
        instances: m.instances.take(smaller(m.instances.len(), most_i) as int),
        witnesses: m.witnesses.take(smaller(m.witnesses.len(), most_w) as int),
        ..m
    }
}

/// The weight of a branch: one where its case is the condition, else zero.
pub open spec fn weight_of(p: nat, case: Seq<u8>, condition: nat) -> nat {
    if is_case(p, case, condition) {
        1
    } else {
        0
    }
}

/// A switch in plaintext, and what it starts from.
#[verifier::ext_equal]
struct Setting {
    p: nat,
    condition: u64,
    outputs: Seq<u64>,
    cases: Seq<Vec<u8>>,
    branches: Seq<CaseInvoke>,
    env: Env,
    weight: Option<nat>,
    depth: nat,
    start: Machine,
}

/// Whether a switch is over a prime field, in no branch or in a selected one.
spec fn ready(x: Setting) -> bool {
    &&& prime(x.p)
    &&& x.env.modulus == x.p
    &&& x.env.is_boolean ==> x.p == 2
    &&& x.weight matches Some(w) ==> w == 1
    &&& x.start.backend == plain_state(x.p)
}

/// Whether a branch, evaluated alone from the start, leaves a scope.
spec fn ran(x: Setting, i: int, scope: Scope, w: nat) -> bool {
    let alone = run_branch::<PlaintextBackend>(
        x.branches[i],
        x.outputs,
        x.env,
        w,
        x.depth,
        x.start,
    );
    &&& w == weight_of(x.p, x.cases[i]@, x.start.scope[x.condition])
    &&& alone.1 is Ok
    &&& alone.0.scope == scope
}

/// Whether branches, each evaluated alone from the start, leave these scopes.
spec fn all_ran(x: Setting, done: Branches) -> bool {
    &&& done.0.len() == done.1.len()
    &&& forall|i: int|
        0 <= i < done.0.len() ==> #[trigger] ran(x, i, done.0[i], done.1[i])
}

/// No gate changes the field of the plaintext backend.
pub proof fn gates_keep_field(p: nat)
    ensures
        kept_by_gates::<PlaintextBackend>(|s: BackendState| s == plain_state(p)),
{
}

proof fn lemma_own_weight(x: Setting, case: Seq<u8>)
    requires
        ready(x),
    ensures
        nested_weight::<PlaintextBackend>(
            plain_state(x.p),
            x.env,
            x.weight,
            case,
            x.start.scope[x.condition],
        ) == (
            plain_state(x.p),
            Ok::<nat, Text>(weight_of(x.p, case, x.start.scope[x.condition])),
        ),
{
    let c = x.start.scope[x.condition];
    branch_is_one_or_zero(x.p, x.env.is_boolean, case, c);
    let own = weight_of(x.p, case, c);
    lemma_last_bits(1, own);
    lemma_small_mod(own, x.p);
    assert(1 * own == own);
}

/// All branches of a switch that succeeds, each evaluated alone, leave what the switch
/// adds up.
proof fn lemma_all_ran(x: Setting, k: nat, m: Machine, done: Branches)
    requires
        ready(x),
        m.backend == plain_state(x.p),
        m.scope == x.start.scope,
        among(m.iterators, x.start.iterators),
        all_ran(x, done),
        done.0.len() == k,
        k <= branch_count(x.cases, x.branches),
    ensures
        ({
            let (later, r) = run_cases::<PlaintextBackend>(
                x.condition,
                x.outputs,
                x.cases,
                x.branches,
                k,
                x.start.instances,
                x.start.witnesses,
                x.env,
                x.weight,
                x.depth,
                m,
                done,
            );
            r is Ok ==> {
                &&& later.backend == plain_state(x.p)
                &&& later.scope == m.scope
                &&& all_ran(x, r->Ok_0)
                &&& r->Ok_0.0.len() == branch_count(x.cases, x.branches)
            }
        }),
    decreases branch_count(x.cases, x.branches) - k,
{
    if k < x.cases.len() && k < x.branches.len() && look(m.scope, x.condition) is Ok {
        let case = x.cases[k as int]@;
        let branch = x.branches[k as int];
        lemma_own_weight(x, case);
        let w = weight_of(x.p, case, x.start.scope[x.condition]);
        let m1 = Machine { instances: x.start.instances, witnesses: x.start.witnesses, ..m };
        assert(m1 == Machine { backend: plain_state(x.p), ..m1 });
        let (m2, r) = run_branch::<PlaintextBackend>(branch, x.outputs, x.env, w, x.depth, m1);
        if r is Ok {
            let field = |s: BackendState| s == plain_state(x.p);
            gates_keep_field(x.p);
            keeps_branch::<PlaintextBackend>(field, branch, x.outputs, x.env, w, x.depth, m1);
            branch_with_more_iterators::<PlaintextBackend>(
                branch,
                x.outputs,
                x.env,
                w,
                x.depth,
                m1,
                x.start.iterators,
            );
            assert(iterating(m1, x.start.iterators) == x.start);
            branch_ends_with_loops::<PlaintextBackend>(
                branch,
                x.outputs,
                x.env,
                w,
                x.depth,
                m1,
            );
            let next: Branches = (done.0.push(m2.scope), done.1.push(w));
            assert(ran(x, k as int, m2.scope, w));
            assert(all_ran(x, next)) by {
                assert forall|i: int| 0 <= i < next.0.len() implies #[trigger] ran(
                    x,
                    i,
                    next.0[i],
                    next.1[i],
                ) by {
                    if i < k {
                        assert(ran(x, i, done.0[i], done.1[i]));
                    }
                }
            }
            lemma_all_ran(
                x,
                k + 1,
                Machine { backend: m2.backend, iterators: m2.iterators, ..m },
                next,
            );
        }
    }
}

/// A branch that succeeds gives all outputs a value.
proof fn lemma_outputs_given(x: Setting, i: int, scope: Scope, w: nat, id: u64)
    requires
        ran(x, i, scope, w),
        x.outputs.contains(id),
    ensures
        scope.contains_key(id),
{
    let m = x.start;
    match x.branches[i] {
        CaseInvoke::AbstractGateCall(name, inputs) => {
            let f = known(x.env.functions, name@)->Some_0;
            let ins = expanded(inputs@)->Ok_0;
            let (s1, inner, r) = gathered::<PlaintextBackend>(
                m.backend,
                m.scope,
                ins,
                0,
                Map::empty(),
            );
            subcircuit_writes_outputs::<PlaintextBackend>(
                f.body,
                x.outputs,
                ins,
                x.env,
                Some(w),
                (x.depth - 1) as nat,
                Machine { backend: s1, scope: inner, iterators: Map::empty(), ..m },
            );
        },
        CaseInvoke::AbstractAnonCall(inputs, _, _, subcircuit) => {
            let ins = expanded(inputs@)->Ok_0;
            let (s1, inner, r) = gathered::<PlaintextBackend>(
                m.backend,
                m.scope,
                ins,
                0,
                Map::empty(),
            );
            subcircuit_writes_outputs::<PlaintextBackend>(
                subcircuit@,
                x.outputs,
                ins,
                x.env,
                Some(w),
                x.depth,
                Machine { backend: s1, scope: inner, ..m },
            );
        },
    }
}

/// The outputs of a switch get the sums of what the branches left, each times its weight.
proof fn lemma_sums(x: Setting, m: Machine, done: Branches, k: nat)
    requires
        ready(x),
        all_ran(x, done),
        m.backend == plain_state(x.p),
    ensures
        ({
            let (later, r) = merged::<PlaintextBackend>(
                m,
                x.env.is_boolean,
                done.0,
                done.1,
                x.outputs,
                k,
            );
            r is Ok ==> {
                &&& kept_in(m.scope, later.scope)
                &&& forall|j: int|
                    k <= j < x.outputs.len() ==> {
                        &&& later.scope.contains_key(#[trigger] x.outputs[j])
                        &&& later.scope[x.outputs[j]] == total(
                            done.0,
                            done.1,
                            x.outputs[j],
                            0,
                        ) % x.p
                    }
            }
        }),
    decreases x.outputs.len() - k,
{
    if k < x.outputs.len() {
        let id = x.outputs[k as int];
        assert forall|i: int| 0 <= i < done.0.len() implies (#[trigger] done.0[i]).contains_key(
            id,
        ) by {
            assert(ran(x, i, done.0[i], done.1[i]));
            lemma_outputs_given(x, i, done.0[i], done.1[i], id);
        }
        lemma_total(x.p, x.env.is_boolean, done.0, done.1, id, 0, 0);
        let sum = weighted_sum::<PlaintextBackend>(
            plain_state(x.p),
            x.env.is_boolean,
            done.0,
            done.1,
            id,
            0,
            Ok(0),
        );
        let (m1, r) = store(m, sum, id);
        if r is Ok {
            lemma_sums(x, m1, done, k + 1);
            let (later, rest) = merged::<PlaintextBackend>(
                m1,
                x.env.is_boolean,
                done.0,
                done.1,
                x.outputs,
                k + 1,
            );
            assert(merged::<PlaintextBackend>(
                m,
                x.env.is_boolean,
                done.0,
                done.1,
                x.outputs,
                k,
            ) == (later, rest));
            if rest is Ok {
                assert(kept_in(m.scope, m1.scope));
                assert(m1.scope.contains_key(id));
                assert(later.scope[id] == total(done.0, done.1, id, 0) % x.p);
            }
        }
    }
}

/// Where no branch is selected, a sum is zero.
proof fn lemma_none_selected(scopes: Seq<Scope>, weights: Seq<nat>, id: u64, k: nat)
    requires
        scopes.len() == weights.len(),
        forall|i: int| 0 <= i < weights.len() ==> #[trigger] weights[i] == 0,
    ensures
        total(scopes, weights, id, k) == 0,
    decreases scopes.len() - k,
{
    if k < scopes.len() {
        lemma_none_selected(scopes, weights, id, k + 1);
        assert(weights[k as int] == 0);
        assert(scopes[k as int][id] * 0 == 0);
    }
}

/// A switch gives what its selected branch gives. In plaintext, over a prime field, let a
/// switch with distinct cases succeed, in no branch or in a selected one. If one of its
/// cases is the condition, then the branch of that case, evaluated alone, succeeds too, and
/// each output of the switch is, modulo the characteristic, what that branch gives it. If
/// none is, each output is zero. Alone, a branch starts from the wires of the switch, from
/// all of its iterators and from the first instance and witness values that are left:
/// other branches change none of this.
pub proof fn switch_selects_branch(
    p: nat,
    condition: u64,
    outputs: Seq<WireListElement>,
    cases: Seq<Vec<u8>>,
    branches: Seq<CaseInvoke>,
    env: Env,
    weight: Option<nat>,
    depth: nat,
    m: Machine,
)
    requires
        prime(p),
        env.modulus == p,
        env.is_boolean ==> p == 2,
        weight matches Some(w) ==> w == 1,
        m.backend == plain_state(p),
        distinct_cases(p, cases),
        run_switch::<PlaintextBackend>(
            condition,
            outputs,
            cases,
            branches,
            env,
            weight,
            depth,
            m,
        ).1 is Ok,
    ensures
        ({
            let later = run_switch::<PlaintextBackend>(
                condition,
                outputs,
                cases,
                branches,
                env,
                weight,
                depth,
                m,
            ).0;
            let outs = expanded(outputs)->Ok_0;
            let start = branch_start(env, branches, m);
            &&& expanded(outputs) is Ok
            &&& branch_count(cases, branches) > 0 ==> m.scope.contains_key(condition)
            &&& forall|k: int|
                0 <= k < branch_count(cases, branches) && is_case(
                    p,
                    (#[trigger] cases[k])@,
                    m.scope[condition],
                ) ==> {
                    let (alone, r) = run_branch::<PlaintextBackend>(
                        branches[k],
                        outs,
                        env,
                        1,
                        depth,
                        start,
                    );
                    &&& r is Ok
                    &&& forall|j: int|
                        0 <= j < outs.len() ==> {
                            &&& alone.scope.contains_key(#[trigger] outs[j])
                            &&& later.scope.contains_key(outs[j])
                            &&& later.scope[outs[j]] == alone.scope[outs[j]] % p
                        }
                }
            &&& (forall|k: int|
                0 <= k < branch_count(cases, branches) ==> !is_case(
                    p,
                    (#[trigger] cases[k])@,
                    m.scope[condition],
                )) ==> forall|j: int|
                0 <= j < outs.len() ==> later.scope.contains_key(#[trigger] outs[j])
                    && later.scope[outs[j]] == 0
        }),
{
    let outs = expanded(outputs)->Ok_0;
    let start = branch_start(env, branches, m);
    let (most_i, most_w) = most_counts(env.functions, branches, 0, 0, 0)->Ok_0;
    let x = Setting {
        p,
        condition,
        outputs: outs,
        cases,
        branches,
        env,
        weight,
        depth,
        start,
    };
    let none: Branches = (Seq::empty(), Seq::empty());
    let m1 = Machine {
        instances: m.instances.skip(smaller(m.instances.len(), most_i) as int),
        witnesses: m.witnesses.skip(smaller(m.witnesses.len(), most_w) as int),
        ..m
    };
    lemma_all_ran(x, 0, m1, none);
    let (m2, r) = run_cases::<PlaintextBackend>(
        condition,
        outs,
        cases,
        branches,
        0,
        start.instances,
        start.witnesses,
        env,
        weight,
        depth,
        m1,
        none,
    );
    let done = r->Ok_0;
    lemma_sums(x, m2, done, 0);
    let later = merged::<PlaintextBackend>(m2, env.is_boolean, done.0, done.1, outs, 0).0;
    let c = m.scope[condition];
    assert forall|k: int|
        0 <= k < branch_count(cases, branches) && is_case(
            p,
            (#[trigger] cases[k])@,
            c,
        ) implies {
        let (alone, r) = run_branch::<PlaintextBackend>(branches[k], outs, env, 1, depth, start);
        &&& r is Ok
        &&& forall|j: int|
            0 <= j < outs.len() ==> {
                &&& alone.scope.contains_key(#[trigger] outs[j])
                &&& later.scope.contains_key(outs[j])
                &&& later.scope[outs[j]] == alone.scope[outs[j]] % p
            }
    } by {
        assert(ran(x, k, done.0[k], done.1[k]));
        assert forall|i: int| 0 <= i < done.1.len() implies #[trigger] done.1[i] == (if i == k {
            1nat
        } else {
            0nat
        }) by {
            assert(ran(x, i, done.0[i], done.1[i]));
            assert(le_value(cases[i]@) % p == le_value(cases[i]@) % p);
        }
        assert forall|j: int| 0 <= j < outs.len() implies {
            &&& done.0[k].contains_key(#[trigger] outs[j])
            &&& later.scope.contains_key(outs[j])
            &&& later.scope[outs[j]] == done.0[k][outs[j]] % p
        } by {
            lemma_outputs_given(x, k, done.0[k], done.1[k], outs[j]);
            lemma_selected(done.0, done.1, k, outs[j], 0);
        }
    }
    if forall|k: int|
        0 <= k < branch_count(cases, branches) ==> !is_case(p, (#[trigger] cases[k])@, c) {
        assert forall|i: int| 0 <= i < done.1.len() implies #[trigger] done.1[i] == 0 by {
            assert(ran(x, i, done.0[i], done.1[i]));
            assert(!is_case(p, cases[i]@, c));
        }
        assert forall|j: int| 0 <= j < outs.len() implies later.scope.contains_key(
            #[trigger] outs[j],
        ) && later.scope[outs[j]] == 0 by {
            lemma_none_selected(done.0, done.1, outs[j], 0);
            lemma_small_mod(0, p);
        }
    }
}

} // verus!
