//! When evaluating a circuit without the witness comes to the same as with it.

use crate::consumers::backend::{Answer, BackendState, Request, ZKBackend};
use crate::consumers::semantics::{
    add_request, all_defined, ask, asserted, branch_weight, freed, gathered, known, loaded, look,
    merged, most_counts, mul_request, negated, nested_weight, plus_one, power, run_branch,
    run_cases, run_for, run_function, run_gate, run_gates, run_subcircuit, run_switch, run_turn,
    smaller, store, unloaded, weight_of_case, weighted_sum, with_message, with_messages, Branches,
    Env, EvaluatorV, FunctionV, Machine, Outcome, Reply, Scope, Text, MAX_NESTING,
};
use crate::number::le_value;
use crate::structs::function::{CaseInvoke, ForLoopBody};
use crate::structs::gate::Gate;
use crate::structs::iterators::evaluated;
use crate::structs::message::Message;
use crate::structs::relation::{Relation, BOOL};
use crate::structs::wire::{expanded, WireListElement};
use vstd::prelude::*;

verus! {

/// A relation between states.
pub type Relating = spec_fn(BackendState, BackendState) -> bool;

/// Whether two requests are the same but for the value of a witness, which the second
/// lacks.
pub open spec fn paired(r1: Request, r2: Request) -> bool {
    if r1 is Witness {
        r2 == Request::Witness(None)
    } else {
        r2 == r1
    }
}

/// Whether requests that are accepted with the witness are accepted without it, with the
/// same answer, and keep a relation between the states.
pub open spec fn coupled<B: ZKBackend>(rel: Relating) -> bool {
    forall|s1: BackendState, s2: BackendState, r1: Request, r2: Request|
        #![trigger B::after(s1, r1), B::after(s2, r2)]
        rel(s1, s2) && paired(r1, r2) && B::answer(s1, r1) is Ok ==> {
            &&& B::answer(s2, r2) == B::answer(s1, r1)
            &&& rel(B::after(s1, r1), B::after(s2, r2))
        }
}

/// Whether two replies are the same where the first accepts.
spec fn twin_reply(rel: Relating, a: Reply, b: Reply) -> bool {
    a.1 is Ok ==> b.1 == a.1 && rel(a.0, b.0)
}

/// Whether two machines are the same but for the witness values.
pub open spec fn twins(rel: Relating, a: Machine, b: Machine) -> bool {
    &&& rel(a.backend, b.backend)
    &&& b == (Machine { backend: b.backend, witnesses: b.witnesses, ..a })
    &&& b.witnesses.len() == 0
}

/// Whether two outcomes are the same where the first succeeds.
pub open spec fn twin_outcome(rel: Relating, a: Outcome, b: Outcome) -> bool {
    a.1 is Ok ==> b.1 is Ok && twins(rel, a.0, b.0)
}

proof fn tw_ask<B: ZKBackend>(rel: Relating, s1: BackendState, s2: BackendState, r: Request)
    requires
        coupled::<B>(rel),
        rel(s1, s2),
        !(r is Witness),
    ensures
        twin_reply(rel, ask::<B>(s1, r), ask::<B>(s2, r)),
        B::answer(s1, r) is Ok ==> B::answer(s2, r) == B::answer(s1, r),
{
    let t1 = B::after(s1, r);
    let t2 = B::after(s2, r);
}

proof fn tw_negated<B: ZKBackend>(
    rel: Relating,
    s1: BackendState,
    s2: BackendState,
    is_boolean: bool,
    a: nat,
)
    requires
        coupled::<B>(rel),
        rel(s1, s2),
    ensures
        twin_reply(rel, negated::<B>(s1, is_boolean, a), negated::<B>(s2, is_boolean, a)),
{
    tw_ask::<B>(rel, s1, s2, Request::MinusOne);
    tw_ask::<B>(rel, s1, s2, Request::Copy(a));
    if B::answer(s1, Request::MinusOne) is Ok {
        let c = B::answer(s1, Request::MinusOne)->Ok_0;
        tw_ask::<B>(rel, s1, s2, Request::MulConstant(a, c));
    }
}

proof fn tw_plus_one<B: ZKBackend>(
    rel: Relating,
    s1: BackendState,
    s2: BackendState,
    is_boolean: bool,
    a: nat,
)
    requires
        coupled::<B>(rel),
        rel(s1, s2),
    ensures
        twin_reply(rel, plus_one::<B>(s1, is_boolean, a), plus_one::<B>(s2, is_boolean, a)),
{
    tw_ask::<B>(rel, s1, s2, Request::One);
    tw_ask::<B>(rel, s1, s2, Request::Not(a));
    if B::answer(s1, Request::One) is Ok {
        let c = B::answer(s1, Request::One)->Ok_0;
        tw_ask::<B>(rel, s1, s2, Request::AddConstant(a, c));
    }
}

proof fn tw_power<B: ZKBackend>(
    rel: Relating,
    s1: BackendState,
    s2: BackendState,
    is_boolean: bool,
    base: nat,
    exponent: nat,
)
    requires
        coupled::<B>(rel),
        rel(s1, s2),
    ensures
        twin_reply(
            rel,
            power::<B>(s1, is_boolean, base, exponent),
            power::<B>(s2, is_boolean, base, exponent),
        ),
    decreases exponent,
{
    if exponent <= 1 {
        tw_ask::<B>(rel, s1, s2, Request::Copy(base));
    } else {
        tw_power::<B>(rel, s1, s2, is_boolean, base, exponent / 2);
        let (t1, root) = power::<B>(s1, is_boolean, base, exponent / 2);
        let t2 = power::<B>(s2, is_boolean, base, exponent / 2).0;
        if root is Ok {
            let p = root->Ok_0;
            tw_ask::<B>(rel, t1, t2, mul_request(is_boolean, p, p));
            let (u1, square) = ask::<B>(t1, mul_request(is_boolean, p, p));
            let u2 = ask::<B>(t2, mul_request(is_boolean, p, p)).0;
            if square is Ok {
                tw_ask::<B>(rel, u1, u2, mul_request(is_boolean, square->Ok_0, base));
            }
        }
    }
}

proof fn tw_weight_of_case<B: ZKBackend>(
    rel: Relating,
    s1: BackendState,
    s2: BackendState,
    modulus: nat,
    is_boolean: bool,
    case_wire: nat,
    condition: nat,
)
    requires
        coupled::<B>(rel),
        rel(s1, s2),
    ensures
        twin_reply(
            rel,
            weight_of_case::<B>(s1, modulus, is_boolean, case_wire, condition),
            weight_of_case::<B>(s2, modulus, is_boolean, case_wire, condition),
        ),
{
    tw_negated::<B>(rel, s1, s2, is_boolean, condition);
    let (a1, minus) = negated::<B>(s1, is_boolean, condition);
    let a2 = negated::<B>(s2, is_boolean, condition).0;
    if minus is Ok {
        let sum = add_request(is_boolean, case_wire, minus->Ok_0);
        tw_ask::<B>(rel, a1, a2, sum);
        let (b1, base) = ask::<B>(a1, sum);
        let b2 = ask::<B>(a2, sum).0;
        if base is Ok {
            let n = (modulus - 1) as nat;
            tw_power::<B>(rel, b1, b2, is_boolean, base->Ok_0, n);
            let (c1, raised) = power::<B>(b1, is_boolean, base->Ok_0, n);
            let c2 = power::<B>(b2, is_boolean, base->Ok_0, n).0;
            if raised is Ok {
                tw_negated::<B>(rel, c1, c2, is_boolean, raised->Ok_0);
                let (d1, right) = negated::<B>(c1, is_boolean, raised->Ok_0);
                let d2 = negated::<B>(c2, is_boolean, raised->Ok_0).0;
                if right is Ok {
                    tw_plus_one::<B>(rel, d1, d2, is_boolean, right->Ok_0);
                }
            }
        }
    }
}

proof fn tw_weight<B: ZKBackend>(
    rel: Relating,
    s1: BackendState,
    s2: BackendState,
    env: Env,
    weight: Option<nat>,
    case: Seq<u8>,
    condition: nat,
)
    requires
        coupled::<B>(rel),
        rel(s1, s2),
    ensures
        twin_reply(
            rel,
            nested_weight::<B>(s1, env, weight, case, condition),
            nested_weight::<B>(s2, env, weight, case, condition),
        ),
{
    if env.modulus >= 2 && B::parse(case) is Ok {
        let c = B::parse(case)->Ok_0;
        tw_ask::<B>(rel, s1, s2, Request::Constant(c));
        let (a1, wire) = ask::<B>(s1, Request::Constant(c));
        let a2 = ask::<B>(s2, Request::Constant(c)).0;
        if wire is Ok {
            tw_weight_of_case::<B>(
                rel,
                a1,
                a2,
                env.modulus,
                env.is_boolean,
                wire->Ok_0,
                condition,
            );
            let (b1, own) = branch_weight::<B>(s1, env.modulus, env.is_boolean, case, condition);
            let b2 = branch_weight::<B>(s2, env.modulus, env.is_boolean, case, condition).0;
            if own is Ok && weight is Some {
                tw_ask::<B>(
                    rel,
                    b1,
                    b2,
                    mul_request(env.is_boolean, weight->Some_0, own->Ok_0),
                );
            }
        }
    }
}

/// Whether two scopes were filled in the same way where the first was.
spec fn twin_filling(
    rel: Relating,
    a: (BackendState, Scope, Result<(), Text>),
    b: (BackendState, Scope, Result<(), Text>),
) -> bool {
    a.2 is Ok ==> b.2 is Ok && rel(a.0, b.0) && b.1 == a.1
}

proof fn tw_loaded<B: ZKBackend>(
    rel: Relating,
    s1: BackendState,
    s2: BackendState,
    scope: Scope,
    inputs: Seq<u64>,
    output_count: nat,
    k: nat,
    inner: Scope,
)
    requires
        coupled::<B>(rel),
        rel(s1, s2),
    ensures
        twin_filling(
            rel,
            loaded::<B>(s1, scope, inputs, output_count, k, inner),
            loaded::<B>(s2, scope, inputs, output_count, k, inner),
        ),
    decreases inputs.len() - k,
{
    if k < inputs.len() && look(scope, inputs[k as int]) is Ok {
        let r = Request::Copy(look(scope, inputs[k as int])->Ok_0);
        tw_ask::<B>(rel, s1, s2, r);
        let (t1, copy) = ask::<B>(s1, r);
        let t2 = ask::<B>(s2, r).0;
        let id = ((k + output_count) % 0x1_0000_0000_0000_0000) as u64;
        if copy is Ok && !inner.contains_key(id) {
            tw_loaded::<B>(
                rel,
                t1,
                t2,
                scope,
                inputs,
                output_count,
                k + 1,
                inner.insert(id, copy->Ok_0),
            );
        }
    }
}

proof fn tw_gathered<B: ZKBackend>(
    rel: Relating,
    s1: BackendState,
    s2: BackendState,
    scope: Scope,
    inputs: Seq<u64>,
    k: nat,
    branch: Scope,
)
    requires
        coupled::<B>(rel),
        rel(s1, s2),
    ensures
        twin_filling(
            rel,
            gathered::<B>(s1, scope, inputs, k, branch),
            gathered::<B>(s2, scope, inputs, k, branch),
        ),
    decreases inputs.len() - k,
{
    if k < inputs.len() && look(scope, inputs[k as int]) is Ok {
        let id = inputs[k as int];
        let r = Request::Copy(look(scope, id)->Ok_0);
        tw_ask::<B>(rel, s1, s2, r);
        let (t1, copy) = ask::<B>(s1, r);
        let t2 = ask::<B>(s2, r).0;
        if copy is Ok {
            tw_gathered::<B>(rel, t1, t2, scope, inputs, k + 1, branch.insert(id, copy->Ok_0));
        }
    }
}

proof fn tw_unloaded<B: ZKBackend>(
    rel: Relating,
    a: Machine,
    b: Machine,
    inner: Scope,
    outputs: Seq<u64>,
    k: nat,
)
    requires
        coupled::<B>(rel),
        twins(rel, a, b),
    ensures
        twin_outcome(
            rel,
            unloaded::<B>(a, inner, outputs, k),
            unloaded::<B>(b, inner, outputs, k),
        ),
    decreases outputs.len() - k,
{
    if k < outputs.len() && look(inner, k as u64) is Ok {
        let r = Request::Copy(look(inner, k as u64)->Ok_0);
        tw_ask::<B>(rel, a.backend, b.backend, r);
        let (a1, ra) = store(a, ask::<B>(a.backend, r), outputs[k as int]);
        let (b1, rb) = store(b, ask::<B>(b.backend, r), outputs[k as int]);
        if ra is Ok {
            tw_unloaded::<B>(rel, a1, b1, inner, outputs, k + 1);
        }
    }
}

/// A sum that failed stays so.
proof fn lemma_failed<B: ZKBackend>(
    s: BackendState,
    is_boolean: bool,
    scopes: Seq<Scope>,
    weights: Seq<nat>,
    id: u64,
    k: nat,
    text: Text,
)
    ensures
        weighted_sum::<B>(s, is_boolean, scopes, weights, id, k, Err(text)).1 is Err,
    decreases scopes.len() - k,
{
    if k < scopes.len() {
        match look(scopes[k as int], id) {
            Err(t) => {
                lemma_failed::<B>(s, is_boolean, scopes, weights, id, k + 1, t);
            },
            Ok(v) => {
                let (s1, product) = ask::<B>(s, mul_request(is_boolean, v, weights[k as int]));
                match product {
                    Err(t) => {
                        lemma_failed::<B>(s1, is_boolean, scopes, weights, id, k + 1, t);
                    },
                    Ok(_) => {
                        lemma_failed::<B>(s1, is_boolean, scopes, weights, id, k + 1, text);
                    },
                }
            },
        }
    }
}

proof fn tw_sum<B: ZKBackend>(
    rel: Relating,
    s1: BackendState,
    s2: BackendState,
    is_boolean: bool,
    done: Branches,
    id: u64,
    k: nat,
    sum: Answer,
)
    requires
        coupled::<B>(rel),
        rel(s1, s2),
    ensures
        twin_reply(
            rel,
            weighted_sum::<B>(s1, is_boolean, done.0, done.1, id, k, sum),
            weighted_sum::<B>(s2, is_boolean, done.0, done.1, id, k, sum),
        ),
    decreases done.0.len() - k,
{
    if k < done.0.len() {
        match look(done.0[k as int], id) {
            Err(t) => {
                lemma_failed::<B>(s1, is_boolean, done.0, done.1, id, k + 1, t);
            },
            Ok(v) => {
                let r = mul_request(is_boolean, v, done.1[k as int]);
                tw_ask::<B>(rel, s1, s2, r);
                let (t1, product) = ask::<B>(s1, r);
                let t2 = ask::<B>(s2, r).0;
                match product {
                    Err(t) => {
                        lemma_failed::<B>(t1, is_boolean, done.0, done.1, id, k + 1, t);
                    },
                    Ok(p) => match sum {
                        Err(t) => {
                            lemma_failed::<B>(t1, is_boolean, done.0, done.1, id, k + 1, t);
                        },
                        Ok(x) => {
                            let q = add_request(is_boolean, x, p);
                            tw_ask::<B>(rel, t1, t2, q);
                            let (u1, next) = ask::<B>(t1, q);
                            let u2 = ask::<B>(t2, q).0;
                            if next is Ok {
                                tw_sum::<B>(rel, u1, u2, is_boolean, done, id, k + 1, next);
                            } else {
                                lemma_failed::<B>(
                                    u1,
                                    is_boolean,
                                    done.0,
                                    done.1,
                                    id,
                                    k + 1,
                                    next->Err_0,
                                );
                            }
                        },
                    },
                }
            },
        }
    }
}

proof fn tw_merged<B: ZKBackend>(
    rel: Relating,
    a: Machine,
    b: Machine,
    is_boolean: bool,
    done: Branches,
    outputs: Seq<u64>,
    k: nat,
)
    requires
        coupled::<B>(rel),
        twins(rel, a, b),
    ensures
        twin_outcome(
            rel,
            merged::<B>(a, is_boolean, done.0, done.1, outputs, k),
            merged::<B>(b, is_boolean, done.0, done.1, outputs, k),
        ),
    decreases outputs.len() - k,
{
    if k < outputs.len() {
        tw_ask::<B>(rel, a.backend, b.backend, Request::Zero);
        if B::answer(a.backend, Request::Zero) is Ok {
            let z = B::answer(a.backend, Request::Zero)->Ok_0;
            let id = outputs[k as int];
            tw_ask::<B>(rel, a.backend, b.backend, Request::Constant(z));
            let (s1, zero) = ask::<B>(a.backend, Request::Constant(z));
            let s2 = ask::<B>(b.backend, Request::Constant(z)).0;
            let sum_a = weighted_sum::<B>(s1, is_boolean, done.0, done.1, id, 0, zero);
            let sum_b = weighted_sum::<B>(s2, is_boolean, done.0, done.1, id, 0, zero);
            match zero {
                Ok(_) => {
                    tw_sum::<B>(rel, s1, s2, is_boolean, done, id, 0, zero);
                },
                Err(t) => {
                    lemma_failed::<B>(s1, is_boolean, done.0, done.1, id, 0, t);
                },
            }
            let (a1, ra) = store(a, sum_a, id);
            let (b1, rb) = store(b, sum_b, id);
            if ra is Ok {
                tw_merged::<B>(rel, a1, b1, is_boolean, done, outputs, k + 1);
            }
        }
    }
}

proof fn tw_freed(rel: Relating, a: Machine, b: Machine, first: int, last: int)
    requires
        twins(rel, a, b),
    ensures
        twin_outcome(rel, freed(a, first, last), freed(b, first, last)),
    decreases last - first + 1,
{
    if first <= last && a.scope.contains_key(first as u64) {
        tw_freed(
            rel,
            Machine { scope: a.scope.remove(first as u64), ..a },
            Machine { scope: b.scope.remove(first as u64), ..b },
            first + 1,
            last,
        );
    }
}

proof fn tw_asserted<B: ZKBackend>(
    rel: Relating,
    env: Env,
    weight: Option<nat>,
    a: Machine,
    b: Machine,
    id: u64,
)
    requires
        coupled::<B>(rel),
        twins(rel, a, b),
    ensures
        twin_outcome(rel, asserted::<B>(env, weight, a, id), asserted::<B>(env, weight, b, id)),
{
    if look(a.scope, id) is Ok {
        let w = look(a.scope, id)->Ok_0;
        let r = match weight {
            Some(x) => mul_request(env.is_boolean, x, w),
            None => Request::Copy(w),
        };
        tw_ask::<B>(rel, a.backend, b.backend, r);
        let (s1, tested) = ask::<B>(a.backend, r);
        let s2 = ask::<B>(b.backend, r).0;
        if tested is Ok {
            tw_ask::<B>(rel, s1, s2, Request::AssertZero(tested->Ok_0));
        }
    }
}

/// The request of a gate that makes one.
spec fn request_of<B: ZKBackend>(gate: Gate, m: Machine) -> Request {
    match gate {
        Gate::Constant(_, value) => Request::Constant(B::parse(value@)->Ok_0),
        Gate::Copy(_, x) => Request::Copy(m.scope[x]),
        Gate::Add(_, x, y) => Request::Add(m.scope[x], m.scope[y]),
        Gate::Mul(_, x, y) => Request::Multiply(m.scope[x], m.scope[y]),
        Gate::AddConstant(_, x, value) => Request::AddConstant(
            m.scope[x],
            B::parse(value@)->Ok_0,
        ),
        Gate::MulConstant(_, x, value) => Request::MulConstant(
            m.scope[x],
            B::parse(value@)->Ok_0,
        ),
        Gate::And(_, x, y) => Request::And(m.scope[x], m.scope[y]),
        Gate::Xor(_, x, y) => Request::Xor(m.scope[x], m.scope[y]),
        Gate::Not(_, x) => Request::Not(m.scope[x]),
        Gate::Instance(_) => Request::Instance(m.instances[0]),
        Gate::Witness(_) => Request::Witness(
            if m.witnesses.len() == 0 {
                None
            } else {
                Some(m.witnesses[0])
            },
        ),
        _ => Request::One,
    }
}

proof fn tw_elementary<B: ZKBackend>(
    rel: Relating,
    gate: Gate,
    env: Env,
    weight: Option<nat>,
    depth: nat,
    a: Machine,
    b: Machine,
)
    requires
        coupled::<B>(rel),
        twins(rel, a, b),
        !(gate is Call || gate is AnonCall || gate is For || gate is Switch),
    ensures
        twin_outcome(
            rel,
            run_gate::<B>(gate, env, weight, depth, a),
            run_gate::<B>(gate, env, weight, depth, b),
        ),
{
    match gate {
        Gate::AssertZero(id) => {
            tw_asserted::<B>(rel, env, weight, a, b, id);
        },
        Gate::Free(first, last) => {
            tw_freed(
                rel,
                a,
                b,
                first as int,
                match last {
                    Some(id) => id as int,
                    None => first as int,
                },
            );
        },
        _ => {
            let r1 = request_of::<B>(gate, a);
            let r2 = request_of::<B>(gate, b);
            assert(paired(r1, r2));
            let t1 = B::after(a.backend, r1);
            let t2 = B::after(b.backend, r2);
        },
    }
}

/// Gates that succeed with the witness succeed without it.
proof fn tw_gates<B: ZKBackend>(
    rel: Relating,
    gates: Seq<Gate>,
    k: nat,
    env: Env,
    weight: Option<nat>,
    depth: nat,
    a: Machine,
    b: Machine,
)
    requires
        coupled::<B>(rel),
        twins(rel, a, b),
    ensures
        twin_outcome(
            rel,
            run_gates::<B>(gates, k, env, weight, depth, a),
            run_gates::<B>(gates, k, env, weight, depth, b),
        ),
    decreases depth, gates, gates.len() - k,
{
    if k < gates.len() {
        let gate = gates[k as int];
        tw_gate::<B>(rel, gate, env, weight, depth, a, b);
        let (a1, ra) = run_gate::<B>(gate, env, weight, depth, a);
        let (b1, rb) = run_gate::<B>(gate, env, weight, depth, b);
        if ra is Ok {
            tw_gates::<B>(rel, gates, k + 1, env, weight, depth, a1, b1);
        }
    }
}

proof fn tw_subcircuit<B: ZKBackend>(
    rel: Relating,
    gates: Seq<Gate>,
    outputs: Seq<u64>,
    inputs: Seq<u64>,
    env: Env,
    weight: Option<nat>,
    depth: nat,
    a: Machine,
    b: Machine,
)
    requires
        coupled::<B>(rel),
        twins(rel, a, b),
    ensures
        twin_outcome(
            rel,
            run_subcircuit::<B>(gates, outputs, inputs, env, weight, depth, a),
            run_subcircuit::<B>(gates, outputs, inputs, env, weight, depth, b),
        ),
    decreases depth, gates, gates.len() + 1,
{
    let none = Map::<u64, nat>::empty();
    tw_loaded::<B>(rel, a.backend, b.backend, a.scope, inputs, outputs.len(), 0, none);
    let (s1, inner, r1) = loaded::<B>(a.backend, a.scope, inputs, outputs.len(), 0, none);
    let s2 = loaded::<B>(b.backend, b.scope, inputs, outputs.len(), 0, none).0;
    if r1 is Ok {
        let a1 = Machine { backend: s1, scope: inner, ..a };
        let b1 = Machine { backend: s2, scope: inner, ..b };
        tw_gates::<B>(rel, gates, 0, env, weight, depth, a1, b1);
        let (a2, ra) = run_gates::<B>(gates, 0, env, weight, depth, a1);
        let (b2, rb) = run_gates::<B>(gates, 0, env, weight, depth, b1);
        if ra is Ok {
            tw_unloaded::<B>(
                rel,
                Machine { scope: a.scope, ..a2 },
                Machine { scope: b.scope, ..b2 },
                a2.scope,
                outputs,
                0,
            );
        }
    }
}

proof fn tw_function<B: ZKBackend>(
    rel: Relating,
    f: FunctionV,
    outputs: Seq<u64>,
    inputs: Seq<u64>,
    env: Env,
    weight: Option<nat>,
    depth: nat,
    a: Machine,
    b: Machine,
)
    requires
        coupled::<B>(rel),
        twins(rel, a, b),
    ensures
        twin_outcome(
            rel,
            run_function::<B>(f, outputs, inputs, env, weight, depth, a),
            run_function::<B>(f, outputs, inputs, env, weight, depth, b),
        ),
    decreases depth, f.body, f.body.len() + 2,
{
    tw_subcircuit::<B>(
        rel,
        f.body,
        outputs,
        inputs,
        env,
        weight,
        depth,
        Machine { iterators: Map::empty(), ..a },
        Machine { iterators: Map::empty(), ..b },
    );
}

proof fn tw_turn<B: ZKBackend>(
    rel: Relating,
    body: ForLoopBody,
    env: Env,
    weight: Option<nat>,
    depth: nat,
    a: Machine,
    b: Machine,
)
    requires
        coupled::<B>(rel),
        twins(rel, a, b),
    ensures
        twin_outcome(
            rel,
            run_turn::<B>(body, env, weight, depth, a),
            run_turn::<B>(body, env, weight, depth, b),
        ),
    decreases depth, body, 0int,
{
    match body {
        ForLoopBody::IterExprCall(name, outputs, inputs) => {
            let f = known(env.functions, name@);
            let outs = evaluated(outputs@, a.iterators);
            let ins = evaluated(inputs@, a.iterators);
            if f is Some && outs is Ok && ins is Ok && depth > 0 {
                tw_function::<B>(
                    rel,
                    f->Some_0,
                    outs->Ok_0,
                    ins->Ok_0,
                    env,
                    weight,
                    (depth - 1) as nat,
                    a,
                    b,
                );
            }
        },
        ForLoopBody::IterExprAnonCall(outputs, inputs, _, _, subcircuit) => {
            let outs = evaluated(outputs@, a.iterators);
            let ins = evaluated(inputs@, a.iterators);
            if outs is Ok && ins is Ok {
                tw_subcircuit::<B>(
                    rel,
                    subcircuit@,
                    outs->Ok_0,
                    ins->Ok_0,
                    env,
                    weight,
                    depth,
                    a,
                    b,
                );
            }
        },
    }
}

proof fn tw_for<B: ZKBackend>(
    rel: Relating,
    name: Text,
    current: int,
    last: int,
    body: ForLoopBody,
    env: Env,
    weight: Option<nat>,
    depth: nat,
    a: Machine,
    b: Machine,
)
    requires
        coupled::<B>(rel),
        twins(rel, a, b),
    ensures
        twin_outcome(
            rel,
            run_for::<B>(name, current, last, body, env, weight, depth, a),
            run_for::<B>(name, current, last, body, env, weight, depth, b),
        ),
    decreases depth, body, last - current + 2,
{
    if current <= last {
        let a0 = Machine { iterators: a.iterators.insert(name, current as u64), ..a };
        let b0 = Machine { iterators: b.iterators.insert(name, current as u64), ..b };
        tw_turn::<B>(rel, body, env, weight, depth, a0, b0);
        let (a1, ra) = run_turn::<B>(body, env, weight, depth, a0);
        let (b1, rb) = run_turn::<B>(body, env, weight, depth, b0);
        if ra is Ok {
            tw_for::<B>(rel, name, current + 1, last, body, env, weight, depth, a1, b1);
        }
    }
}

proof fn tw_branch<B: ZKBackend>(
    rel: Relating,
    branch: CaseInvoke,
    outputs: Seq<u64>,
    env: Env,
    weight: nat,
    depth: nat,
    a: Machine,
    b: Machine,
)
    requires
        coupled::<B>(rel),
        twins(rel, a, b),
    ensures
        twin_outcome(
            rel,
            run_branch::<B>(branch, outputs, env, weight, depth, a),
            run_branch::<B>(branch, outputs, env, weight, depth, b),
        ),
    decreases depth, branch, 0int,
{
    let none = Map::<u64, nat>::empty();
    let list = match branch {
        CaseInvoke::AbstractGateCall(_, inputs) => expanded(inputs@),
        CaseInvoke::AbstractAnonCall(inputs, _, _, _) => expanded(inputs@),
    };
    if list is Ok {
        let ins = list->Ok_0;
        tw_gathered::<B>(rel, a.backend, b.backend, a.scope, ins, 0, none);
        let (s1, scope, r) = gathered::<B>(a.backend, a.scope, ins, 0, none);
        let s2 = gathered::<B>(b.backend, b.scope, ins, 0, none).0;
        let a1 = Machine { backend: s1, scope, ..a };
        let b1 = Machine { backend: s2, scope, ..b };
        if r is Ok {
            match branch {
                CaseInvoke::AbstractGateCall(name, inputs) => {
                    let f = known(env.functions, name@);
                    if f is Some && depth > 0 {
                        tw_function::<B>(
                            rel,
                            f->Some_0,
                            outputs,
                            ins,
                            env,
                            Some(weight),
                            (depth - 1) as nat,
                            a1,
                            b1,
                        );
                    }
                },
                CaseInvoke::AbstractAnonCall(inputs, _, _, subcircuit) => {
                    tw_subcircuit::<B>(
                        rel,
                        subcircuit@,
                        outputs,
                        ins,
                        env,
                        Some(weight),
                        depth,
                        a1,
                        b1,
                    );
                },
            }
        }
    }
}

proof fn tw_cases<B: ZKBackend>(
    rel: Relating,
    condition: u64,
    outputs: Seq<u64>,
    cases: Seq<Vec<u8>>,
    branches: Seq<CaseInvoke>,
    k: nat,
    instances: Seq<nat>,
    witnesses: Seq<nat>,
    env: Env,
    weight: Option<nat>,
    depth: nat,
    a: Machine,
    b: Machine,
    done: Branches,
)
    requires
        coupled::<B>(rel),
        twins(rel, a, b),
    ensures
        ({
            let (a1, ra) = run_cases::<B>(
                condition,
                outputs,
                cases,
                branches,
                k,
                instances,
                witnesses,
                env,
                weight,
                depth,
                a,
                done,
            );
            let (b1, rb) = run_cases::<B>(
                condition,
                outputs,
                cases,
                branches,
                k,
                instances,
                Seq::empty(),
                env,
                weight,
                depth,
                b,
                done,
            );
            ra is Ok ==> rb == ra && twins(rel, a1, b1)
        }),
    decreases depth, branches, branches.len() - k,
{
    if k < cases.len() && k < branches.len() && look(a.scope, condition) is Ok {
        let c = look(a.scope, condition)->Ok_0;
        let case = cases[k as int]@;
        tw_weight::<B>(rel, a.backend, b.backend, env, weight, case, c);
        let (s1, own) = nested_weight::<B>(a.backend, env, weight, case, c);
        let s2 = nested_weight::<B>(b.backend, env, weight, case, c).0;
        if own is Ok {
            let w = own->Ok_0;
            let branch = branches[k as int];
            let a1 = Machine { backend: s1, instances, witnesses, ..a };
            let b1 = Machine { backend: s2, instances, witnesses: Seq::empty(), ..b };
            tw_branch::<B>(rel, branch, outputs, env, w, depth, a1, b1);
            let (a2, ra) = run_branch::<B>(branch, outputs, env, w, depth, a1);
            let (b2, rb) = run_branch::<B>(branch, outputs, env, w, depth, b1);
            if ra is Ok {
                tw_cases::<B>(
                    rel,
                    condition,
                    outputs,
                    cases,
                    branches,
                    k + 1,
                    instances,
                    witnesses,
                    env,
                    weight,
                    depth,
                    Machine { backend: a2.backend, iterators: a2.iterators, ..a },
                    Machine { backend: b2.backend, iterators: b2.iterators, ..b },
                    (done.0.push(a2.scope), done.1.push(w)),
                );
            }
        }
    }
}

proof fn tw_switch<B: ZKBackend>(
    rel: Relating,
    condition: u64,
    outputs: Seq<WireListElement>,
    cases: Seq<Vec<u8>>,
    branches: Seq<CaseInvoke>,
    env: Env,
    weight: Option<nat>,
    depth: nat,
    a: Machine,
    b: Machine,
)
    requires
        coupled::<B>(rel),
        twins(rel, a, b),
    ensures
        twin_outcome(
            rel,
            run_switch::<B>(condition, outputs, cases, branches, env, weight, depth, a),
            run_switch::<B>(condition, outputs, cases, branches, env, weight, depth, b),
        ),
    decreases depth, branches, branches.len() + 1,
{
    let most = most_counts(env.functions, branches, 0, 0, 0);
    if most is Ok && expanded(outputs) is Ok {
        let i = smaller(a.instances.len(), most->Ok_0.0) as int;
        let w = smaller(a.witnesses.len(), most->Ok_0.1) as int;
        let a1 = Machine { instances: a.instances.skip(i), witnesses: a.witnesses.skip(w), ..a };
        let b1 = Machine { instances: b.instances.skip(i), witnesses: b.witnesses.skip(0), ..b };
        assert(b.witnesses.take(0) =~= Seq::empty());
        assert(b.witnesses.skip(0) =~= b.witnesses);
        let outs = expanded(outputs)->Ok_0;
        let none: Branches = (Seq::empty(), Seq::empty());
        tw_cases::<B>(
            rel,
            condition,
            outs,
            cases,
            branches,
            0,
            a.instances.take(i),
            a.witnesses.take(w),
            env,
            weight,
            depth,
            a1,
            b1,
            none,
        );
        let (a2, ra) = run_cases::<B>(
            condition,
            outs,
            cases,
            branches,
            0,
            a.instances.take(i),
            a.witnesses.take(w),
            env,
            weight,
            depth,
            a1,
            none,
        );
        let (b2, rb) = run_cases::<B>(
            condition,
            outs,
            cases,
            branches,
            0,
            b.instances.take(i),
            Seq::empty(),
            env,
            weight,
            depth,
            b1,
            none,
        );
        if ra is Ok {
            tw_merged::<B>(rel, a2, b2, env.is_boolean, ra->Ok_0, outs, 0);
        }
    }
}

proof fn tw_gate<B: ZKBackend>(
    rel: Relating,
    gate: Gate,
    env: Env,
    weight: Option<nat>,
    depth: nat,
    a: Machine,
    b: Machine,
)
    requires
        coupled::<B>(rel),
        twins(rel, a, b),
    ensures
        twin_outcome(
            rel,
            run_gate::<B>(gate, env, weight, depth, a),
            run_gate::<B>(gate, env, weight, depth, b),
        ),
    decreases depth, gate, 0int,
{
    match gate {
        Gate::Call(name, outputs, inputs) => {
            let f = known(env.functions, name@);
            if f is Some && expanded(outputs@) is Ok && expanded(inputs@) is Ok && depth > 0 {
                tw_function::<B>(
                    rel,
                    f->Some_0,
                    expanded(outputs@)->Ok_0,
                    expanded(inputs@)->Ok_0,
                    env,
                    weight,
                    (depth - 1) as nat,
                    a,
                    b,
                );
            }
        },
        Gate::AnonCall(outputs, inputs, _, _, subcircuit) => {
            if expanded(outputs@) is Ok && expanded(inputs@) is Ok {
                tw_subcircuit::<B>(
                    rel,
                    subcircuit@,
                    expanded(outputs@)->Ok_0,
                    expanded(inputs@)->Ok_0,
                    env,
                    weight,
                    depth,
                    a,
                    b,
                );
            }
        },
        Gate::For(name, first, last, _, body) => {
            tw_for::<B>(
                rel,
                name@,
                first as int,
                last as int,
                body,
                env,
                weight,
                depth,
                a,
                b,
            );
        },
        Gate::Switch(condition, outputs, cases, branches) => {
            tw_switch::<B>(
                rel,
                condition,
                outputs@,
                cases@,
                branches@,
                env,
                weight,
                depth,
                a,
                b,
            );
        },
        _ => {
            tw_elementary::<B>(rel, gate, env, weight, depth, a, b);
        },
    }
}

/// Messages from the `k`-th on, without witnesses.
pub open spec fn public_part(messages: Seq<Message>, k: nat) -> Seq<Message>
    decreases messages.len() - k,
{
    if k >= messages.len() {
        Seq::empty()
    } else if messages[k as int] is Witness {
        public_part(messages, k + 1)
    } else {
        seq![messages[k as int]] + public_part(messages, k + 1)
    }
}

/// Whether two evaluators are the same but for the witness.
pub open spec fn twin_evaluators(
    rel: Relating,
    a: (EvaluatorV, BackendState),
    b: (EvaluatorV, BackendState),
) -> bool {
    &&& rel(a.1, b.1)
    &&& b.0 == (EvaluatorV { modulus: b.0.modulus, witnesses: b.0.witnesses, ..a.0 })
    &&& b.0.witnesses.len() == 0
    &&& a.0.error is None
}

proof fn lemma_shifted<B: ZKBackend>(
    e: EvaluatorV,
    s: BackendState,
    first: Message,
    rest: Seq<Message>,
    k: nat,
)
    ensures
        with_messages::<B>(e, s, seq![first] + rest, k + 1) == with_messages::<B>(e, s, rest, k),
    decreases rest.len() - k,
{
    let all = seq![first] + rest;
    if k < rest.len() {
        assert(all[k as int + 1] == rest[k as int]);
        let (e1, s1) = with_message::<B>(e, s, rest[k as int]);
        lemma_shifted::<B>(e1, s1, first, rest, k + 1);
    }
}

proof fn tw_relation<B: ZKBackend>(
    rel: Relating,
    a: (EvaluatorV, BackendState),
    b: (EvaluatorV, BackendState),
    relation: Relation,
)
    requires
        coupled::<B>(rel),
        twin_evaluators(rel, a, b),
        with_message::<B>(a.0, a.1, Message::Relation(relation)).0.error is None,
    ensures
        twin_evaluators(
            rel,
            with_message::<B>(a.0, a.1, Message::Relation(relation)),
            with_message::<B>(b.0, b.1, Message::Relation(relation)),
        ),
{
    let is_boolean = relation.gate_mask & BOOL == BOOL;
    let modulus = relation.header.field_characteristic@;
    let r = Request::SetField { modulus, degree: relation.header.field_degree, is_boolean };
    tw_ask::<B>(rel, a.1, b.1, r);
    let ma = Machine {
        backend: ask::<B>(a.1, r).0,
        scope: a.0.scope,
        iterators: Map::empty(),
        instances: a.0.instances,
        witnesses: a.0.witnesses,
    };
    let mb = Machine { backend: ask::<B>(b.1, r).0, witnesses: b.0.witnesses, ..ma };
    tw_gates::<B>(
        rel,
        relation.gates@,
        0,
        Env {
            functions: a.0.functions + all_defined(relation.functions@),
            modulus: le_value(modulus),
            is_boolean,
        },
        None,
        MAX_NESTING as nat,
        ma,
        mb,
    );
}

/// Messages that are accepted with the witnesses among them are accepted without these.
pub proof fn public_part_is_accepted<B: ZKBackend>(
    rel: Relating,
    a: (EvaluatorV, BackendState),
    b: (EvaluatorV, BackendState),
    messages: Seq<Message>,
    k: nat,
)
    requires
        coupled::<B>(rel),
        twin_evaluators(rel, a, b),
        with_messages::<B>(a.0, a.1, messages, k).0.error is None,
    ensures
        twin_evaluators(
            rel,
            with_messages::<B>(a.0, a.1, messages, k),
            with_messages::<B>(b.0, b.1, public_part(messages, k), 0),
        ),
    decreases messages.len() - k,
{
    if k < messages.len() {
        let message = messages[k as int];
        let a1 = with_message::<B>(a.0, a.1, message);
        if a1.0.error is Some {
            crate::consumers::invariance::refused_once::<B>(a1.0, a1.1, messages, k + 1);
        }
        match message {
            Message::Witness(w) => {
                public_part_is_accepted::<B>(rel, a1, b, messages, k + 1);
            },
            _ => {
                let rest = public_part(messages, k + 1);
                let b1 = with_message::<B>(b.0, b.1, message);
                if message is Relation {
                    tw_relation::<B>(rel, a, b, message->Relation_0);
                }
                public_part_is_accepted::<B>(rel, a1, b1, messages, k + 1);
                assert((seq![message] + rest)[0] == message);
                lemma_shifted::<B>(b1.0, b1.1, message, rest, 0);
            },
        }
    }
}

} // verus!
