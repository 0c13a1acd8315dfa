//! What the evaluation of a circuit is: which requests the backend gets, in which
//! order, and what becomes of its answers.

use crate::consumers::backend::{Answer, BackendState, Request, ZKBackend};
use crate::error::decimal;
use crate::number::le_value;
use crate::structs::function::{CaseInvoke, ForLoopBody, Function};
use crate::structs::gate::Gate;
use crate::structs::instance::Instance;
use crate::structs::iterators::evaluated;
use crate::structs::message::Message;
use crate::structs::relation::{Relation, BOOL};
use crate::structs::wire::{expanded, WireListElement};
use crate::structs::witness::Witness;
use vstd::prelude::*;

verus! {

/// How many calls of functions may be nested in one another: more than any
/// machine can hold.
pub const MAX_NESTING: u64 = 0xffff_ffff_ffff_ffff;

pub type Text = Seq<char>;

/// The wires that have a value, each with its number in the backend.
pub type Scope = Map<u64, nat>;

/// The state that a backend is left in, and its answer.
pub type Reply = (BackendState, Answer);

/// A function as it is known to the evaluation.
pub struct FunctionV {
    pub name: Text,
    pub body: Seq<Gate>,
    pub instance_nbr: nat,
    pub witness_nbr: nat,
    pub output_count: nat,
    pub input_count: nat,
}

/// What is known of a function once it is defined.
pub open spec fn defined(f: Function) -> FunctionV {
    FunctionV {
        name: f.name@,
        body: f.body@,
        instance_nbr: f.instance_count as nat,
        witness_nbr: f.witness_count as nat,
        output_count: f.output_count as nat,
        input_count: f.input_count as nat,
    }
}

/// What is known of several functions.
pub open spec fn all_defined(functions: Seq<Function>) -> Seq<FunctionV> {
    functions.map_values(|f: Function| defined(f))
}

/// What stays the same while gates are evaluated.
pub struct Env {
    pub functions: Seq<FunctionV>,
    pub modulus: nat,
    pub is_boolean: bool,
}

/// What gates change.
#[verifier::ext_equal]
pub struct Machine {
    pub backend: BackendState,
    pub scope: Scope,
    pub iterators: Map<Text, u64>,
    pub instances: Seq<nat>,
    pub witnesses: Seq<nat>,
}

/// The state that gates leave, and whether they succeeded.
pub type Outcome = (Machine, Result<(), Text>);

pub open spec fn no_value_text(id: u64) -> Text {
    "No value given for wire_"@ + decimal(id as nat)
}

pub open spec fn already_text(id: u64) -> Text {
    "Wire_"@ + decimal(id as nat) + " already has a value in this scope."@
}

pub open spec fn not_zero_text(id: u64) -> Text {
    "Wire_"@ + decimal(id as nat) + " (may be weighted) should be 0, while it is not"@
}

pub open spec fn no_instance_text() -> Text {
    "Not enough instance to consume"@
}

pub open spec fn unknown_function_text() -> Text {
    "Unknown function"@
}

pub open spec fn wrong_count_text(kind: Text, name: Text, expected: nat, got: nat) -> Text {
    "Wrong number of "@ + kind + " variables in call to function "@ + name + " (Expected "@
        + decimal(expected) + " / Got "@ + decimal(got) + ")."@
}

pub open spec fn nesting_text() -> Text {
    "Too many calls of functions in one another"@
}

pub open spec fn small_modulus_text() -> Text {
    "The modulus of a switch must be at least 2"@
}

/// The latest of the known functions that have a name.
pub open spec fn known(functions: Seq<FunctionV>, name: Text) -> Option<FunctionV>
    decreases functions.len(),
{
    if functions.len() == 0 {
        None
    } else if functions.last().name == name {
        Some(functions.last())
    } else {
        known(functions.drop_last(), name)
    }
}

/// The value of a wire.
pub open spec fn look(scope: Scope, id: u64) -> Answer {
    if scope.contains_key(id) {
        Ok(scope[id])
    } else {
        Err(no_value_text(id))
    }
}

/// One request to the backend.
pub open spec fn ask<B: ZKBackend>(s: BackendState, r: Request) -> Reply {
    (B::after(s, r), B::answer(s, r))
}

/// The request for a product, which is an `and` in Boolean circuits.
pub open spec fn mul_request(is_boolean: bool, a: nat, b: nat) -> Request {
    if is_boolean {
        Request::And(a, b)
    } else {
        Request::Multiply(a, b)
    }
}

/// The request for a sum, which is a `xor` in Boolean circuits.
pub open spec fn add_request(is_boolean: bool, a: nat, b: nat) -> Request {
    if is_boolean {
        Request::Xor(a, b)
    } else {
        Request::Add(a, b)
    }
}

/// The opposite of a wire, which is the wire itself in Boolean circuits.
pub open spec fn negated<B: ZKBackend>(s: BackendState, is_boolean: bool, a: nat) -> Reply {
    if is_boolean {
        ask::<B>(s, Request::Copy(a))
    } else {
        match B::answer(s, Request::MinusOne) {
            Err(t) => (s, Err(t)),
            Ok(c) => ask::<B>(s, Request::MulConstant(a, c)),
        }
    }
}

/// A wire plus one, which is its negation in Boolean circuits.
pub open spec fn plus_one<B: ZKBackend>(s: BackendState, is_boolean: bool, a: nat) -> Reply {
    if is_boolean {
        ask::<B>(s, Request::Not(a))
    } else {
        match B::answer(s, Request::One) {
            Err(t) => (s, Err(t)),
            Ok(c) => ask::<B>(s, Request::AddConstant(a, c)),
        }
    }
}

/// A wire to the power of a positive number, by squaring.
pub open spec fn power<B: ZKBackend>(
    s: BackendState,
    is_boolean: bool,
    base: nat,
    exponent: nat,
) -> Reply
    decreases exponent,
{
    if exponent <= 1 {
        ask::<B>(s, Request::Copy(base))
    } else {
        let (s1, root) = power::<B>(s, is_boolean, base, exponent / 2);
        match root {
            Err(t) => (s1, Err(t)),
            Ok(p) => {
                let (s2, square) = ask::<B>(s1, mul_request(is_boolean, p, p));
                if exponent % 2 == 1 {
                    match square {
                        Err(t) => (s2, Err(t)),
                        Ok(q) => ask::<B>(s2, mul_request(is_boolean, q, base)),
                    }
                } else {
                    (s2, square)
                }
            },
        }
    }
}

/// `1 - (case - condition)^(modulus - 1)`.
pub open spec fn branch_weight<B: ZKBackend>(
    s: BackendState,
    modulus: nat,
    is_boolean: bool,
    case: Seq<u8>,
    condition: nat,
) -> Reply {
    if modulus < 2 {
        (s, Err(small_modulus_text()))
    } else {
        match B::parse(case) {
            Err(t) => (s, Err(t)),
            Ok(c) => {
                let (s1, case_wire) = ask::<B>(s, Request::Constant(c));
                match case_wire {
                    Err(t) => (s1, Err(t)),
                    Ok(case_wire) => weight_of_case::<B>(
                        s1,
                        modulus,
                        is_boolean,
                        case_wire,
                        condition,
                    ),
                }
            },
        }
    }
}

/// `branch_weight` once the case is a wire.
pub open spec fn weight_of_case<B: ZKBackend>(
    s: BackendState,
    modulus: nat,
    is_boolean: bool,
    case_wire: nat,
    condition: nat,
) -> Reply {
    let (s1, minus_cond) = negated::<B>(s, is_boolean, condition);
    match minus_cond {
        Err(t) => (s1, Err(t)),
        Ok(minus_cond) => {
            let (s2, base) = ask::<B>(s1, add_request(is_boolean, case_wire, minus_cond));
            match base {
                Err(t) => (s2, Err(t)),
                Ok(base) => {
                    let (s3, to_exp) = power::<B>(
                        s2,
                        is_boolean,
                        base,
                        (modulus - 1) as nat,
                    );
                    match to_exp {
                        Err(t) => (s3, Err(t)),
                        Ok(to_exp) => {
                            let (s4, right) = negated::<B>(s3, is_boolean, to_exp);
                            match right {
                                Err(t) => (s4, Err(t)),
                                Ok(right) => plus_one::<B>(s4, is_boolean, right),
                            }
                        },
                    }
                },
            }
        },
    }
}

/// The weight of a branch inside a branch that may have a weight itself.
pub open spec fn nested_weight<B: ZKBackend>(
    s: BackendState,
    env: Env,
    weight: Option<nat>,
    case: Seq<u8>,
    condition: nat,
) -> Reply {
    let (s1, own) = branch_weight::<B>(s, env.modulus, env.is_boolean, case, condition);
    match (own, weight) {
        (Ok(own), Some(w)) => ask::<B>(s1, mul_request(env.is_boolean, w, own)),
        _ => (s1, own),
    }
}

/// Gives a wire its value; refused, though done, where it had one already.
pub open spec fn put(m: Machine, id: u64, w: nat) -> Outcome {
    (
        Machine { scope: m.scope.insert(id, w), ..m },
        if m.scope.contains_key(id) {
            Err(already_text(id))
        } else {
            Ok(())
        },
    )
}

/// Gives a wire the value that the backend answered.
pub open spec fn store(m: Machine, reply: Reply, id: u64) -> Outcome {
    let m1 = Machine { backend: reply.0, ..m };
    match reply.1 {
        Err(t) => (m1, Err(t)),
        Ok(w) => put(m1, id, w),
    }
}

/// Forgets the wires from `first` to `last`; refused at the first one without a
/// value.
pub open spec fn freed(m: Machine, first: int, last: int) -> Outcome
    decreases last - first + 1,
{
    if first > last {
        (m, Ok(()))
    } else if !m.scope.contains_key(first as u64) {
        (m, Err(no_value_text(first as u64)))
    } else {
        freed(Machine { scope: m.scope.remove(first as u64), ..m }, first + 1, last)
    }
}

/// Checks that a wire, times the weight if there is one, is zero.
pub open spec fn asserted<B: ZKBackend>(
    env: Env,
    weight: Option<nat>,
    m: Machine,
    id: u64,
) -> Outcome {
    match look(m.scope, id) {
        Err(t) => (m, Err(t)),
        Ok(w) => {
            let (s1, tested) = match weight {
                Some(x) => ask::<B>(m.backend, mul_request(env.is_boolean, x, w)),
                None => ask::<B>(m.backend, Request::Copy(w)),
            };
            match tested {
                Err(t) => (Machine { backend: s1, ..m }, Err(t)),
                Ok(z) => {
                    let (s2, verdict) = ask::<B>(s1, Request::AssertZero(z));
                    (
                        Machine { backend: s2, ..m },
                        if verdict is Ok {
                            Ok(())
                        } else {
                            Err(not_zero_text(id))
                        },
                    )
                },
            }
        },
    }
}

/// The request of a gate with one input wire.
pub open spec fn unary<B: ZKBackend>(
    m: Machine,
    out: u64,
    a: u64,
    request: spec_fn(nat) -> Request,
) -> Outcome {
    match look(m.scope, a) {
        Err(t) => (m, Err(t)),
        Ok(x) => store(m, ask::<B>(m.backend, request(x)), out),
    }
}

/// The request of a gate with two input wires.
pub open spec fn binary<B: ZKBackend>(
    m: Machine,
    out: u64,
    a: u64,
    b: u64,
    request: spec_fn(nat, nat) -> Request,
) -> Outcome {
    match look(m.scope, a) {
        Err(t) => (m, Err(t)),
        Ok(x) => match look(m.scope, b) {
            Err(t) => (m, Err(t)),
            Ok(y) => store(m, ask::<B>(m.backend, request(x, y)), out),
        },
    }
}

/// The request of a gate with an input wire and a constant.
pub open spec fn with_constant<B: ZKBackend>(
    m: Machine,
    out: u64,
    a: u64,
    constant: Seq<u8>,
    request: spec_fn(nat, nat) -> Request,
) -> Outcome {
    match look(m.scope, a) {
        Err(t) => (m, Err(t)),
        Ok(x) => match B::parse(constant) {
            Err(t) => (m, Err(t)),
            Ok(c) => store(m, ask::<B>(m.backend, request(x, c)), out),
        },
    }
}

/// Copies the inputs of a subcircuit, from the `k`-th on, into its own scope,
/// where they follow its outputs.
pub open spec fn loaded<B: ZKBackend>(
    s: BackendState,
    scope: Scope,
    inputs: Seq<u64>,
    output_count: nat,
    k: nat,
    inner: Scope,
) -> (BackendState, Scope, Result<(), Text>)
    decreases inputs.len() - k,
{
    if k >= inputs.len() {
        (s, inner, Ok(()))
    } else {
        match look(scope, inputs[k as int]) {
            Err(t) => (s, inner, Err(t)),
            Ok(w) => {
                let (s1, copy) = ask::<B>(s, Request::Copy(w));
                let id = ((k + output_count) % 0x1_0000_0000_0000_0000) as u64;
                match copy {
                    Err(t) => (s1, inner, Err(t)),
                    Ok(c) => if inner.contains_key(id) {
                        (s1, inner.insert(id, c), Err(already_text(id)))
                    } else {
                        loaded::<B>(s1, scope, inputs, output_count, k + 1, inner.insert(id, c))
                    },
                }
            },
        }
    }
}

/// Copies the outputs of a subcircuit, from the `k`-th on, into the scope of its
/// caller.
pub open spec fn unloaded<B: ZKBackend>(
    m: Machine,
    inner: Scope,
    outputs: Seq<u64>,
    k: nat,
) -> Outcome
    decreases outputs.len() - k,
{
    if k >= outputs.len() {
        (m, Ok(()))
    } else {
        match look(inner, k as u64) {
            Err(t) => (m, Err(t)),
            Ok(w) => {
                let (m1, r) = store(m, ask::<B>(m.backend, Request::Copy(w)), outputs[k as int]);
                match r {
                    Err(t) => (m1, Err(t)),
                    Ok(_) => unloaded::<B>(m1, inner, outputs, k + 1),
                }
            },
        }
    }
}

/// Copies the inputs of a branch, from the `k`-th on, into the branch's scope.
pub open spec fn gathered<B: ZKBackend>(
    s: BackendState,
    scope: Scope,
    inputs: Seq<u64>,
    k: nat,
    branch: Scope,
) -> (BackendState, Scope, Result<(), Text>)
    decreases inputs.len() - k,
{
    if k >= inputs.len() {
        (s, branch, Ok(()))
    } else {
        match look(scope, inputs[k as int]) {
            Err(t) => (s, branch, Err(t)),
            Ok(w) => {
                let (s1, copy) = ask::<B>(s, Request::Copy(w));
                match copy {
                    Err(t) => (s1, branch, Err(t)),
                    Ok(c) => gathered::<B>(
                        s1,
                        scope,
                        inputs,
                        k + 1,
                        branch.insert(inputs[k as int], c),
                    ),
                }
            },
        }
    }
}

/// How many instance and witness values a branch takes.
pub open spec fn branch_counts(functions: Seq<FunctionV>, branch: CaseInvoke) -> Result<
    (nat, nat),
    Text,
> {
    match branch {
        CaseInvoke::AbstractGateCall(name, _) => match known(functions, name@) {
            None => Err(unknown_function_text()),
            Some(f) => Ok((f.instance_nbr, f.witness_nbr)),
        },
        CaseInvoke::AbstractAnonCall(_, instances, witnesses, _) => Ok(
            (instances as nat, witnesses as nat),
        ),
    }
}

pub open spec fn larger(a: nat, b: nat) -> nat {
    if a >= b {
        a
    } else {
        b
    }
}

pub open spec fn smaller(a: nat, b: nat) -> nat {
    if a <= b {
        a
    } else {
        b
    }
}

/// The most instance and witness values that a branch takes, from the `k`-th on.
pub open spec fn most_counts(
    functions: Seq<FunctionV>,
    branches: Seq<CaseInvoke>,
    k: nat,
    instances: nat,
    witnesses: nat,
) -> Result<(nat, nat), Text>
    decreases branches.len() - k,
{
    if k >= branches.len() {
        Ok((instances, witnesses))
    } else {
        match branch_counts(functions, branches[k as int]) {
            Err(t) => Err(t),
            Ok((i, w)) => most_counts(
                functions,
                branches,
                k + 1,
                larger(instances, i),
                larger(witnesses, w),
            ),
        }
    }
}

/// Adds up an output wire over the branches from the `k`-th on, each times its
/// weight. All branches are gone through, whatever fails; the last failure to
/// find or weigh a wire, else the first other one, is what is answered.
pub open spec fn weighted_sum<B: ZKBackend>(
    s: BackendState,
    is_boolean: bool,
    scopes: Seq<Scope>,
    weights: Seq<nat>,
    id: u64,
    k: nat,
    sum: Answer,
) -> Reply
    decreases scopes.len() - k,
{
    if k >= scopes.len() {
        (s, sum)
    } else {
        match look(scopes[k as int], id) {
            Err(t) => weighted_sum::<B>(s, is_boolean, scopes, weights, id, k + 1, Err(t)),
            Ok(v) => {
                let (s1, product) = ask::<B>(s, mul_request(is_boolean, v, weights[k as int]));
                match product {
                    Err(t) => weighted_sum::<B>(s1, is_boolean, scopes, weights, id, k + 1, Err(t)),
                    Ok(p) => match sum {
                        Err(t) => weighted_sum::<B>(
                            s1,
                            is_boolean,
                            scopes,
                            weights,
                            id,
                            k + 1,
                            Err(t),
                        ),
                        Ok(a) => {
                            let (s2, next) = ask::<B>(s1, add_request(is_boolean, a, p));
                            weighted_sum::<B>(s2, is_boolean, scopes, weights, id, k + 1, next)
                        },
                    },
                }
            },
        }
    }
}

/// Gives the output wires of a switch, from the `k`-th on, their weighted sums.
pub open spec fn merged<B: ZKBackend>(
    m: Machine,
    is_boolean: bool,
    scopes: Seq<Scope>,
    weights: Seq<nat>,
    outputs: Seq<u64>,
    k: nat,
) -> Outcome
    decreases outputs.len() - k,
{
    if k >= outputs.len() {
        (m, Ok(()))
    } else {
        match B::answer(m.backend, Request::Zero) {
            Err(t) => (m, Err(t)),
            Ok(z) => {
                let (s1, zero) = ask::<B>(m.backend, Request::Constant(z));
                let reply = weighted_sum::<B>(
                    s1,
                    is_boolean,
                    scopes,
                    weights,
                    outputs[k as int],
                    0,
                    zero,
                );
                let (m1, r) = store(m, reply, outputs[k as int]);
                match r {
                    Err(t) => (m1, Err(t)),
                    Ok(_) => merged::<B>(m1, is_boolean, scopes, weights, outputs, k + 1),
                }
            },
        }
    }
}

/// Whether a call gives a function as many wires as it has.
pub open spec fn counts_checked(f: FunctionV, name: Text, outputs: nat, inputs: nat) -> Result<
    (),
    Text,
> {
    if outputs != f.output_count {
        Err(wrong_count_text("output"@, name, f.output_count, outputs))
    } else if inputs != f.input_count {
        Err(wrong_count_text("input"@, name, f.input_count, inputs))
    } else {
        Ok(())
    }
}

/// Evaluates gates from the `k`-th on, up to the first that fails.
pub open spec fn run_gates<B: ZKBackend>(
    gates: Seq<Gate>,
    k: nat,
    env: Env,
    weight: Option<nat>,
    depth: nat,
    m: Machine,
) -> Outcome
    decreases depth, gates, gates.len() - k,
{
    if k >= gates.len() {
        (m, Ok(()))
    } else {
        let (m1, r) = run_gate::<B>(gates[k as int], env, weight, depth, m);
        match r {
            Err(t) => (m1, Err(t)),
            Ok(_) => run_gates::<B>(gates, k + 1, env, weight, depth, m1),
        }
    }
}

/// Evaluates a subcircuit in a scope of its own.
pub open spec fn run_subcircuit<B: ZKBackend>(
    gates: Seq<Gate>,
    outputs: Seq<u64>,
    inputs: Seq<u64>,
    env: Env,
    weight: Option<nat>,
    depth: nat,
    m: Machine,
) -> Outcome
    decreases depth, gates, gates.len() + 1,
{
    let (s1, inner, r1) = loaded::<B>(
        m.backend,
        m.scope,
        inputs,
        outputs.len(),
        0,
        Map::empty(),
    );
    match r1 {
        Err(t) => (Machine { backend: s1, ..m }, Err(t)),
        Ok(_) => {
            let (m2, r2) = run_gates::<B>(
                gates,
                0,
                env,
                weight,
                depth,
                Machine { backend: s1, scope: inner, ..m },
            );
            let back = Machine { scope: m.scope, ..m2 };
            match r2 {
                Err(t) => (back, Err(t)),
                Ok(_) => unloaded::<B>(back, m2.scope, outputs, 0),
            }
        },
    }
}

/// Evaluates the body of a function, which sees no iterators of its caller.
pub open spec fn run_function<B: ZKBackend>(
    f: FunctionV,
    outputs: Seq<u64>,
    inputs: Seq<u64>,
    env: Env,
    weight: Option<nat>,
    depth: nat,
    m: Machine,
) -> Outcome
    decreases depth, f.body, f.body.len() + 2,
{
    let (m1, r) = run_subcircuit::<B>(
        f.body,
        outputs,
        inputs,
        env,
        weight,
        depth,
        Machine { iterators: Map::empty(), ..m },
    );
    (Machine { iterators: m.iterators, ..m1 }, r)
}

/// Evaluates one turn of a loop.
pub open spec fn run_turn<B: ZKBackend>(
    body: ForLoopBody,
    env: Env,
    weight: Option<nat>,
    depth: nat,
    m: Machine,
) -> Outcome
    decreases depth, body, 0int,
{
    match body {
        ForLoopBody::IterExprCall(name, outputs, inputs) => match known(env.functions, name@) {
            None => (m, Err(unknown_function_text())),
            Some(f) => match evaluated(outputs@, m.iterators) {
                Err(t) => (m, Err(t)),
                Ok(outs) => match evaluated(inputs@, m.iterators) {
                    Err(t) => (m, Err(t)),
                    Ok(ins) => match counts_checked(f, name@, outs.len(), ins.len()) {
                        Err(t) => (m, Err(t)),
                        Ok(_) => if depth == 0 {
                            (m, Err(nesting_text()))
                        } else {
                            run_function::<B>(f, outs, ins, env, weight, (depth - 1) as nat, m)
                        },
                    },
                },
            },
        },
        ForLoopBody::IterExprAnonCall(outputs, inputs, _, _, subcircuit) => match evaluated(
            outputs@,
            m.iterators,
        ) {
            Err(t) => (m, Err(t)),
            Ok(outs) => match evaluated(inputs@, m.iterators) {
                Err(t) => (m, Err(t)),
                Ok(ins) => run_subcircuit::<B>(
                    subcircuit@,
                    outs,
                    ins,
                    env,
                    weight,
                    depth,
                    m,
                ),
            },
        },
    }
}

/// Evaluates a loop from the turn `current` on. Its iterator has a value during
/// the turns only.
pub open spec fn run_for<B: ZKBackend>(
    name: Text,
    current: int,
    last: int,
    body: ForLoopBody,
    env: Env,
    weight: Option<nat>,
    depth: nat,
    m: Machine,
) -> Outcome
    decreases depth, body, last - current + 2,
{
    if current > last {
        (Machine { iterators: m.iterators.remove(name), ..m }, Ok(()))
    } else {
        let (m1, r) = run_turn::<B>(
            body,
            env,
            weight,
            depth,
            Machine { iterators: m.iterators.insert(name, current as u64), ..m },
        );
        match r {
            Err(t) => (m1, Err(t)),
            Ok(_) => run_for::<B>(name, current + 1, last, body, env, weight, depth, m1),
        }
    }
}

/// Evaluates one branch of a switch in a scope that holds its inputs alone. The
/// scope that it leaves is in the machine.
pub open spec fn run_branch<B: ZKBackend>(
    branch: CaseInvoke,
    outputs: Seq<u64>,
    env: Env,
    weight: nat,
    depth: nat,
    m: Machine,
) -> Outcome
    decreases depth, branch, 0int,
{
    match branch {
        CaseInvoke::AbstractGateCall(name, inputs) => match known(env.functions, name@) {
            None => (m, Err("Unknown function: "@ + name@)),
            Some(f) => match expanded(inputs@) {
                Err(t) => (m, Err(t)),
                Ok(ins) => match counts_checked(f, name@, outputs.len(), ins.len()) {
                    Err(t) => (m, Err(t)),
                    Ok(_) => {
                        let (s1, scope, r) = gathered::<B>(m.backend, m.scope, ins, 0, Map::empty());
                        let m1 = Machine { backend: s1, scope, ..m };
                        match r {
                            Err(t) => (m1, Err(t)),
                            Ok(_) => if depth == 0 {
                                (m1, Err(nesting_text()))
                            } else {
                                run_function::<B>(
                                    f,
                                    outputs,
                                    ins,
                                    env,
                                    Some(weight),
                                    (depth - 1) as nat,
                                    m1,
                                )
                            },
                        }
                    },
                },
            },
        },
        CaseInvoke::AbstractAnonCall(inputs, _, _, subcircuit) => match expanded(inputs@) {
            Err(t) => (m, Err(t)),
            Ok(ins) => {
                let (s1, scope, r) = gathered::<B>(m.backend, m.scope, ins, 0, Map::empty());
                let m1 = Machine { backend: s1, scope, ..m };
                match r {
                    Err(t) => (m1, Err(t)),
                    Ok(_) => run_subcircuit::<B>(
                        subcircuit@,
                        outputs,
                        ins,
                        env,
                        Some(weight),
                        depth,
                        m1,
                    ),
                }
            },
        },
    }
}

/// What the branches of a switch leave: the scope and the weight of each.
pub type Branches = (Seq<Scope>, Seq<nat>);

/// Evaluates the branches of a switch from the `k`-th on. All of them take the
/// same instance and witness values.
pub open spec fn run_cases<B: ZKBackend>(
    condition: u64,
    outputs: Seq<u64>,
    cases: Seq<Vec<u8>>,
    branches: Seq<CaseInvoke>,
    k: nat,
    instances: Seq<nat>,
    witnesses: Seq<nat>,
    env: Env,
    weight: Option<nat>,
    depth: nat,
    m: Machine,
    done: Branches,
) -> (Machine, Result<Branches, Text>)
    decreases depth, branches, branches.len() - k,
{
    if k >= cases.len() || k >= branches.len() {
        (m, Ok(done))
    } else {
        match look(m.scope, condition) {
            Err(t) => (m, Err(t)),
            Ok(c) => {
                let (s1, own) = nested_weight::<B>(m.backend, env, weight, cases[k as int]@, c);
                match own {
                    Err(t) => (Machine { backend: s1, ..m }, Err(t)),
                    Ok(w) => {
                        let (m2, r) = run_branch::<B>(
                            branches[k as int],
                            outputs,
                            env,
                            w,
                            depth,
                            Machine { backend: s1, instances, witnesses, ..m },
                        );
                        let m3 = Machine { backend: m2.backend, iterators: m2.iterators, ..m };
                        match r {
                            Err(t) => (m3, Err(t)),
                            Ok(_) => run_cases::<B>(
                                condition,
                                outputs,
                                cases,
                                branches,
                                k + 1,
                                instances,
                                witnesses,
                                env,
                                weight,
                                depth,
                                m3,
                                (done.0.push(m2.scope), done.1.push(w)),
                            ),
                        }
                    },
                }
            },
        }
    }
}

/// Evaluates all branches of a switch and adds up what they give, each times a
/// weight that is one for the selected branch and zero for the others.
pub open spec fn run_switch<B: ZKBackend>(
    condition: u64,
    outputs: Seq<WireListElement>,
    cases: Seq<Vec<u8>>,
    branches: Seq<CaseInvoke>,
    env: Env,
    weight: Option<nat>,
    depth: nat,
    m: Machine,
) -> Outcome
    decreases depth, branches, branches.len() + 1,
{
    match most_counts(env.functions, branches, 0, 0, 0) {
        Err(t) => (m, Err(t)),
        Ok((most_instances, most_witnesses)) => {
            let i = smaller(m.instances.len(), most_instances) as int;
            let w = smaller(m.witnesses.len(), most_witnesses) as int;
            let m1 = Machine { instances: m.instances.skip(i), witnesses: m.witnesses.skip(w), ..m };
            match expanded(outputs) {
                Err(t) => (m1, Err(t)),
                Ok(outs) => {
                    let (m2, r) = run_cases::<B>(
                        condition,
                        outs,
                        cases,
                        branches,
                        0,
                        m.instances.take(i),
                        m.witnesses.take(w),
                        env,
                        weight,
                        depth,
                        m1,
                        (Seq::empty(), Seq::empty()),
                    );
                    match r {
                        Err(t) => (m2, Err(t)),
                        Ok((scopes, weights)) => merged::<B>(
                            m2,
                            env.is_boolean,
                            scopes,
                            weights,
                            outs,
                            0,
                        ),
                    }
                },
            }
        },
    }
}

/// Evaluates a gate. `weight` is the wire that tells whether the branch that the
/// gate stands in is the selected one, and `depth` how many calls of functions
/// may still be nested in one another.
pub open spec fn run_gate<B: ZKBackend>(
    gate: Gate,
    env: Env,
    weight: Option<nat>,
    depth: nat,
    m: Machine,
) -> Outcome
    decreases depth, gate, 0int,
{
    match gate {
        Gate::Constant(out, value) => match B::parse(value@) {
            Err(t) => (m, Err(t)),
            Ok(c) => store(m, ask::<B>(m.backend, Request::Constant(c)), out),
        },
        Gate::AssertZero(inp) => asserted::<B>(env, weight, m, inp),
        Gate::Copy(out, inp) => unary::<B>(m, out, inp, |x: nat| Request::Copy(x)),
        Gate::Add(out, a, b) => binary::<B>(m, out, a, b, |x: nat, y: nat| Request::Add(x, y)),
        Gate::Mul(out, a, b) => binary::<B>(
            m,
            out,
            a,
            b,
            |x: nat, y: nat| Request::Multiply(x, y),
        ),
        Gate::AddConstant(out, a, value) => with_constant::<B>(
            m,
            out,
            a,
            value@,
            |x: nat, c: nat| Request::AddConstant(x, c),
        ),
        Gate::MulConstant(out, a, value) => with_constant::<B>(
            m,
            out,
            a,
            value@,
            |x: nat, c: nat| Request::MulConstant(x, c),
        ),
        Gate::And(out, a, b) => binary::<B>(m, out, a, b, |x: nat, y: nat| Request::And(x, y)),
        Gate::Xor(out, a, b) => binary::<B>(m, out, a, b, |x: nat, y: nat| Request::Xor(x, y)),
        Gate::Not(out, a) => unary::<B>(m, out, a, |x: nat| Request::Not(x)),
        Gate::Instance(out) => if m.instances.len() == 0 {
            (m, Err(no_instance_text()))
        } else {
            store(
                Machine { instances: m.instances.drop_first(), ..m },
                ask::<B>(m.backend, Request::Instance(m.instances[0])),
                out,
            )
        },
        Gate::Witness(out) => if m.witnesses.len() == 0 {
            store(m, ask::<B>(m.backend, Request::Witness(None)), out)
        } else {
            store(
                Machine { witnesses: m.witnesses.drop_first(), ..m },
                ask::<B>(m.backend, Request::Witness(Some(m.witnesses[0]))),
                out,
            )
        },
        Gate::Free(first, last) => freed(
            m,
            first as int,
            match last {
                Some(id) => id as int,
                None => first as int,
            },
        ),
        Gate::Call(name, outputs, inputs) => match known(env.functions, name@) {
            None => (m, Err(unknown_function_text())),
            Some(f) => match expanded(outputs@) {
                Err(t) => (m, Err(t)),
                Ok(outs) => match expanded(inputs@) {
                    Err(t) => (m, Err(t)),
                    Ok(ins) => match counts_checked(f, name@, outs.len(), ins.len()) {
                        Err(t) => (m, Err(t)),
                        Ok(_) => if depth == 0 {
                            (m, Err(nesting_text()))
                        } else {
                            run_function::<B>(f, outs, ins, env, weight, (depth - 1) as nat, m)
                        },
                    },
                },
            },
        },
        Gate::AnonCall(outputs, inputs, _, _, subcircuit) => match expanded(outputs@) {
            Err(t) => (m, Err(t)),
            Ok(outs) => match expanded(inputs@) {
                Err(t) => (m, Err(t)),
                Ok(ins) => run_subcircuit::<B>(
                    subcircuit@,
                    outs,
                    ins,
                    env,
                    weight,
                    depth,
                    m,
                ),
            },
        },
        Gate::For(name, first, last, _, body) => run_for::<B>(
            name@,
            first as int,
            last as int,
            body,
            env,
            weight,
            depth,
            m,
        ),
        Gate::Switch(condition, outputs, cases, branches) => run_switch::<B>(
            condition,
            outputs@,
            cases@,
            branches@,
            env,
            weight,
            depth,
            m,
        ),
    }
}

/// What an evaluator has come to.
#[verifier::ext_equal]
pub struct EvaluatorV {
    /// The wires of the circuit that have a value.
    pub scope: Scope,
    /// The characteristic of the field.
    pub modulus: nat,
    /// The instance values that no gate has taken yet.
    pub instances: Seq<nat>,
    /// The witness values that no gate has taken yet.
    pub witnesses: Seq<nat>,
    pub is_boolean: bool,
    /// The functions that are known, oldest first.
    pub functions: Seq<FunctionV>,
    /// Whether there was a gate to evaluate.
    pub verified: bool,
    /// Why a message was refused, where one was.
    pub error: Option<Text>,
}

/// An evaluator that no message has reached.
pub open spec fn fresh() -> EvaluatorV {
    EvaluatorV {
        scope: Map::empty(),
        modulus: 0,
        instances: Seq::empty(),
        witnesses: Seq::empty(),
        is_boolean: false,
        functions: Seq::empty(),
        verified: false,
        error: None,
    }
}

/// Appends the elements that values stand for, from the `k`-th on, up to the first
/// value that stands for none.
pub open spec fn enqueued<B: ZKBackend>(queue: Seq<nat>, values: Seq<Vec<u8>>, k: nat) -> (
    Seq<nat>,
    Result<(), Text>,
)
    decreases values.len() - k,
{
    if k >= values.len() {
        (queue, Ok(()))
    } else {
        match B::parse(values[k as int]@) {
            Err(t) => (queue, Err(t)),
            Ok(x) => enqueued::<B>(queue.push(x), values, k + 1),
        }
    }
}

/// What an instance changes.
pub open spec fn with_instance<B: ZKBackend>(e: EvaluatorV, instance: Instance) -> (
    EvaluatorV,
    Result<(), Text>,
) {
    let (instances, r) = enqueued::<B>(e.instances, instance.common_inputs@, 0);
    (
        EvaluatorV {
            modulus: le_value(instance.header.field_characteristic@),
            instances,
            ..e
        },
        r,
    )
}

/// What a witness changes.
pub open spec fn with_witness<B: ZKBackend>(e: EvaluatorV, witness: Witness) -> (
    EvaluatorV,
    Result<(), Text>,
) {
    let (witnesses, r) = enqueued::<B>(e.witnesses, witness.short_witness@, 0);
    (
        EvaluatorV {
            modulus: le_value(witness.header.field_characteristic@),
            witnesses,
            ..e
        },
        r,
    )
}

/// What a relation changes, in the evaluator and in the backend. Its functions are
/// known, and its gates count as received, once the backend has accepted the field.
pub open spec fn with_relation<B: ZKBackend>(
    e: EvaluatorV,
    s: BackendState,
    relation: Relation,
) -> (EvaluatorV, BackendState, Result<(), Text>) {
    let is_boolean = relation.gate_mask & BOOL == BOOL;
    let e1 = EvaluatorV {
        modulus: le_value(relation.header.field_characteristic@),
        is_boolean,
        ..e
    };
    let (s1, accepted) = ask::<B>(
        s,
        Request::SetField {
            modulus: relation.header.field_characteristic@,
            degree: relation.header.field_degree,
            is_boolean,
        },
    );
    match accepted {
        Err(t) => (e1, s1, Err(t)),
        Ok(_) => {
            let functions = e.functions + all_defined(relation.functions@);
            let (m, r) = run_gates::<B>(
                relation.gates@,
                0,
                Env { functions, modulus: e1.modulus, is_boolean },
                None,
                MAX_NESTING as nat,
                Machine {
                    backend: s1,
                    scope: e.scope,
                    iterators: Map::empty(),
                    instances: e.instances,
                    witnesses: e.witnesses,
                },
            );
            (
                EvaluatorV {
                    scope: m.scope,
                    instances: m.instances,
                    witnesses: m.witnesses,
                    functions,
                    verified: e.verified || relation.gates@.len() > 0,
                    ..e1
                },
                m.backend,
                r,
            )
        },
    }
}

/// What a message changes, in the evaluator and in the backend: nothing after an
/// error.
pub open spec fn with_message<B: ZKBackend>(e: EvaluatorV, s: BackendState, message: Message) -> (
    EvaluatorV,
    BackendState,
) {
    if e.error is Some {
        (e, s)
    } else {
        let (e1, s1, r) = match message {
            Message::Instance(i) => {
                let (e1, r) = with_instance::<B>(e, i);
                (e1, s, r)
            },
            Message::Witness(w) => {
                let (e1, r) = with_witness::<B>(e, w);
                (e1, s, r)
            },
            Message::Relation(relation) => with_relation::<B>(e, s, relation),
        };
        match r {
            Err(t) => (EvaluatorV { error: Some(t), ..e1 }, s1),
            Ok(_) => (e1, s1),
        }
    }
}

/// What messages change, from the `k`-th on.
pub open spec fn with_messages<B: ZKBackend>(
    e: EvaluatorV,
    s: BackendState,
    messages: Seq<Message>,
    k: nat,
) -> (EvaluatorV, BackendState)
    decreases messages.len() - k,
{
    if k >= messages.len() {
        (e, s)
    } else {
        let (e1, s1) = with_message::<B>(e, s, messages[k as int]);
        with_messages::<B>(e1, s1, messages, k + 1)
    }
}

/// What an evaluator has to complain of.
pub open spec fn violations(e: EvaluatorV) -> Seq<Text> {
    let missing = if e.verified {
        Seq::empty()
    } else {
        seq!["Did not receive any gate to verify."@]
    };
    match e.error {
        Some(t) => missing.push(t),
        None => missing,
    }
}

} // verus!
