//! When evaluating a circuit with a backend comes to the same as evaluating it in
//! plaintext.

use crate::consumers::backend::{Answer, BackendState, Request, ZKBackend};
use crate::consumers::invariance::{
    keeps_branch, keeps_cases, keeps_for, keeps_function, keeps_gates, keeps_merged, keeps_messages,
    keeps_subcircuit, keeps_unloaded, refused_once,
};
use crate::consumers::plaintext::{plain_answer, plain_state, PlaintextBackend};
use crate::consumers::semantics::{
    add_request, all_defined, ask, asserted, binary, enqueued, freed, gathered, known, loaded, look,
    merged, most_counts, mul_request, negated, nested_weight, plus_one, power, run_branch,
    run_cases, run_for, run_function, run_gate, run_gates, run_subcircuit, run_switch, run_turn,
    smaller, store, unary, unloaded, weight_of_case, weighted_sum, with_constant, with_message,
    with_messages, Branches, Env, EvaluatorV, FunctionV, Machine, Outcome, Reply, Scope, Text,
    MAX_NESTING,
};
use crate::number::le_value;
use crate::structs::function::{CaseInvoke, ForLoopBody};
use crate::structs::gate::Gate;
use crate::structs::iterators::evaluated;
use crate::structs::message::Message;
use crate::structs::relation::{Relation, BOOL};
use crate::structs::wire::{expanded, WireListElement};
use vstd::prelude::*;

verus! {

/// What a circuit may ask for.
pub struct Dialect {
    /// Whether it may ask for `and`, `xor` and `not`.
    pub boolean: bool,
    /// Which values its constants, its instance and its witness may have.
    pub input: spec_fn(nat) -> bool,
}

/// How the states of a backend are read as states of an evaluation in plaintext.
pub struct Reading {
    /// The characteristic of the field.
    pub modulus: nat,
    /// Whether the backend may be asked for anything.
    pub all: bool,
    /// What the backend may be asked for where it may not be asked for anything.
    pub dialect: Dialect,
    /// The value that a wire has in a state.
    pub value: spec_fn(BackendState, nat) -> Option<nat>,
    /// Whether nothing has been asked of the backend that is refused in plaintext.
    pub good: spec_fn(BackendState) -> bool,
    /// Whether something has been asked of the backend that is refused in plaintext.
    pub bad: spec_fn(BackendState) -> bool,
    /// Whether the words of a refusal say that the backend has come to its limits.
    pub gave_up: spec_fn(Text) -> bool,
}

/// Whether the values of wires in a state are those in a later state.
pub open spec fn lasting(read: Reading, s: BackendState, t: BackendState) -> bool {
    forall|w: nat|
        #![trigger (read.value)(t, w)]
        #![trigger (read.value)(s, w)]
        (read.value)(s, w) is Some ==> (read.value)(t, w) == (read.value)(s, w)
}

/// A request with the values of wires in their place, if they all have one in a
/// state.
pub open spec fn valued(read: Reading, s: BackendState, r: Request) -> Option<Request> {
    filled(|w: nat| (read.value)(s, w), r)
}

/// A request with the values of wires in their place, if they all have one.
pub open spec fn filled(value: spec_fn(nat) -> Option<nat>, r: Request) -> Option<Request> {
    match r {
        Request::Copy(a) => match value(a) {
            Some(x) => Some(Request::Copy(x)),
            None => None,
        },
        Request::Constant(c) => Some(r),
        Request::AssertZero(a) => match value(a) {
            Some(x) => Some(Request::AssertZero(x)),
            None => None,
        },
        Request::Add(a, b) => match (value(a), value(b)) {
            (Some(x), Some(y)) => Some(Request::Add(x, y)),
            _ => None,
        },
        Request::Multiply(a, b) => match (value(a), value(b)) {
            (Some(x), Some(y)) => Some(Request::Multiply(x, y)),
            _ => None,
        },
        Request::AddConstant(a, c) => match value(a) {
            Some(x) => Some(Request::AddConstant(x, c)),
            None => None,
        },
        Request::MulConstant(a, c) => match value(a) {
            Some(x) => Some(Request::MulConstant(x, c)),
            None => None,
        },
        Request::And(a, b) => match (value(a), value(b)) {
            (Some(x), Some(y)) => Some(Request::And(x, y)),
            _ => None,
        },
        Request::Xor(a, b) => match (value(a), value(b)) {
            (Some(x), Some(y)) => Some(Request::Xor(x, y)),
            _ => None,
        },
        Request::Not(a) => match value(a) {
            Some(x) => Some(Request::Not(x)),
            None => None,
        },
        Request::Instance(x) => Some(r),
        Request::Witness(x) => Some(r),
        _ => None,
    }
}

/// Whether a request may be made.
pub open spec fn permitted(read: Reading, r: Request) -> bool {
    read.all || match r {
        Request::And(..) => read.dialect.boolean,
        Request::Xor(..) => read.dialect.boolean,
        Request::Not(_) => read.dialect.boolean,
        Request::Constant(c) => (read.dialect.input)(c),
        Request::Instance(x) => (read.dialect.input)(x),
        Request::Witness(Some(x)) => (read.dialect.input)(x),
        _ => true,
    }
}

/// Whether values may be taken in.
pub open spec fn stocked(read: Reading, values: Seq<nat>) -> bool {
    read.all || forall|i: int|
        0 <= i < values.len() ==> (read.dialect.input)(#[trigger] values[i])
}

/// Whether the operations of Boolean circuits may be asked for where they are needed.
pub open spec fn bits_permitted(read: Reading, is_boolean: bool) -> bool {
    read.all || read.dialect.boolean || !is_boolean
}

/// Whether a reply is that of the plaintext, in a state that began with `s`: both
/// accept and the wire has the value, or the refusal in plaintext is noted, or the
/// backend has refused as well or given up.
pub open spec fn agrees(read: Reading, s: BackendState, plain: Answer, reply: Reply) -> bool {
    match reply.1 {
        Err(t) => plain is Err || ((read.gave_up)(t) && (read.good)(reply.0) && lasting(
            read,
            s,
            reply.0,
        )),
        Ok(w) => match plain {
            Ok(x) => (read.good)(reply.0) && lasting(read, s, reply.0) && (read.value)(reply.0, w)
                == Some(x),
            Err(_) => (read.bad)(reply.0),
        },
    }
}

/// `agrees` for a request that gives no wire, on which no backend gives up.
pub open spec fn agrees_on_zero(
    read: Reading,
    s: BackendState,
    plain: Answer,
    reply: Reply,
) -> bool {
    match reply.1 {
        Err(_) => plain is Err,
        Ok(_) => match plain {
            Ok(_) => (read.good)(reply.0) && lasting(read, s, reply.0),
            Err(_) => (read.bad)(reply.0),
        },
    }
}

/// Whether a backend does what the plaintext does, request by request.
pub open spec fn simulates<B: ZKBackend>(read: Reading) -> bool {
    &&& read.modulus > 0
    &&& read.all || (read.dialect.input)(0)
    &&& forall|bytes: Seq<u8>| #[trigger] B::parse(bytes) == Ok::<nat, Text>(le_value(bytes))
    &&& forall|s: BackendState, r: Request|
        (read.bad)(s) ==> (read.bad)(#[trigger] B::after(s, r))
    &&& forall|s: BackendState|
        (read.good)(s) ==> {
            &&& B::answer(s, Request::One) == Ok::<nat, Text>(1)
            &&& B::answer(s, Request::Zero) == Ok::<nat, Text>(0)
            &&& #[trigger] B::answer(s, Request::MinusOne) == Ok::<nat, Text>(
                (read.modulus - 1) as nat,
            )
        }
    &&& forall|s: BackendState, r: Request|
        (read.good)(s) && permitted(read, r) && valued(read, s, r) is Some ==> {
            let plain = plain_answer(read.modulus, valued(read, s, r)->Some_0);
            let reply = (#[trigger] B::after(s, r), B::answer(s, r));
            if r is AssertZero {
                agrees_on_zero(read, s, plain, reply)
            } else {
                agrees(read, s, plain, reply)
            }
        }
}

/// Whether two scopes hold the same values.
pub open spec fn same_scope(read: Reading, s: BackendState, p: Scope, b: Scope) -> bool {
    &&& p.dom() == b.dom()
    &&& forall|k: u64|
        #![trigger b[k]]
        #![trigger p[k]]
        b.contains_key(k) ==> (read.value)(s, b[k]) == Some(p[k])
}

/// Whether two weights are the same value.
pub open spec fn same_weight(
    read: Reading,
    s: BackendState,
    p: Option<nat>,
    b: Option<nat>,
) -> bool {
    match (p, b) {
        (None, None) => true,
        (Some(x), Some(w)) => (read.value)(s, w) == Some(x),
        _ => false,
    }
}

/// Whether the machine of a backend is that of the plaintext.
pub open spec fn same_machine(read: Reading, p: Machine, b: Machine) -> bool {
    &&& p.backend == plain_state(read.modulus)
    &&& (read.good)(b.backend)
    &&& same_scope(read, b.backend, p.scope, b.scope)
    &&& p.iterators == b.iterators
    &&& p.instances == b.instances
    &&& p.witnesses == b.witnesses
    &&& stocked(read, b.instances)
    &&& stocked(read, b.witnesses)
}

/// Whether an outcome is that of the plaintext, in a state that began with `s`.
pub open spec fn same_outcome(read: Reading, s: BackendState, p: Outcome, b: Outcome) -> bool {
    match b.1 {
        Err(t) => p.1 is Err || (read.gave_up)(t),
        Ok(_) => match p.1 {
            Ok(_) => same_machine(read, p.0, b.0) && lasting(read, s, b.0.backend),
            Err(_) => (read.bad)(b.0.backend),
        },
    }
}

/// Whether a gate, with all that it runs, asks for nothing that is not in a dialect.
pub open spec fn spoken(d: Dialect, g: Gate) -> bool
    decreases g,
{
    match g {
        Gate::And(..) => d.boolean,
        Gate::Xor(..) => d.boolean,
        Gate::Not(..) => d.boolean,
        Gate::Constant(_, value) => (d.input)(le_value(value@)),
        Gate::AnonCall(_, _, _, _, subcircuit) => all_spoken(d, subcircuit@),
        Gate::For(_, _, _, _, body) => spoken_body(d, body),
        Gate::Switch(_, _, cases, branches) => spoken_values(d, cases@) && spoken_branches(
            d,
            branches@,
        ),
        _ => true,
    }
}

pub open spec fn all_spoken(d: Dialect, gates: Seq<Gate>) -> bool
    decreases gates,
{
    forall|i: int| 0 <= i < gates.len() ==> spoken(d, #[trigger] gates[i])
}

pub open spec fn spoken_body(d: Dialect, body: ForLoopBody) -> bool
    decreases body,
{
    match body {
        ForLoopBody::IterExprCall(..) => true,
        ForLoopBody::IterExprAnonCall(_, _, _, _, subcircuit) => all_spoken(d, subcircuit@),
    }
}

pub open spec fn spoken_values(d: Dialect, values: Seq<Vec<u8>>) -> bool {
    forall|i: int| 0 <= i < values.len() ==> (d.input)(le_value((#[trigger] values[i])@))
}

pub open spec fn spoken_branches(d: Dialect, branches: Seq<CaseInvoke>) -> bool
    decreases branches,
{
    forall|i: int| 0 <= i < branches.len() ==> spoken_branch(d, #[trigger] branches[i])
}

pub open spec fn spoken_branch(d: Dialect, branch: CaseInvoke) -> bool
    decreases branch,
{
    match branch {
        CaseInvoke::AbstractGateCall(..) => true,
        CaseInvoke::AbstractAnonCall(_, _, _, subcircuit) => all_spoken(d, subcircuit@),
    }
}

/// Whether the bodies of functions ask for nothing that is not in a dialect.
pub open spec fn spoken_functions(d: Dialect, functions: Seq<FunctionV>) -> bool {
    forall|i: int| 0 <= i < functions.len() ==> all_spoken(d, (#[trigger] functions[i]).body)
}

/// Whether all that may be run asks for nothing that is not permitted.
pub open spec fn permitted_env(read: Reading, env: Env) -> bool {
    read.all || (bits_permitted(read, env.is_boolean) && spoken_functions(
        read.dialect,
        env.functions,
    ))
}

proof fn lemma_known(functions: Seq<FunctionV>, name: Text)
    ensures
        known(functions, name) matches Some(f) ==> exists|i: int|
            0 <= i < functions.len() && #[trigger] functions[i] == f,
    decreases functions.len(),
{
    if functions.len() > 0 && functions.last().name != name {
        lemma_known(functions.drop_last(), name);
        if known(functions.drop_last(), name) is Some {
            let f = known(functions.drop_last(), name)->Some_0;
            let i = choose|i: int|
                0 <= i < functions.drop_last().len() && #[trigger] functions.drop_last()[i] == f;
            assert(functions[i] == f);
        }
    }
}

proof fn sim_negated<B: ZKBackend>(
    read: Reading,
    s: BackendState,
    is_boolean: bool,
    x: nat,
    w: nat,
)
    requires
        simulates::<B>(read),
        (read.good)(s),
        (read.value)(s, w) == Some(x),
        bits_permitted(read, is_boolean),
    ensures
        negated::<PlaintextBackend>(plain_state(read.modulus), is_boolean, x).0 == plain_state(
            read.modulus,
        ),
        negated::<PlaintextBackend>(plain_state(read.modulus), is_boolean, x).1 is Ok,
        agrees(
            read,
            s,
            negated::<PlaintextBackend>(plain_state(read.modulus), is_boolean, x).1,
            negated::<B>(s, is_boolean, w),
        ),
{
    let r = if is_boolean {
        Request::Copy(w)
    } else {
        Request::MulConstant(w, (read.modulus - 1) as nat)
    };
    let t = B::after(s, r);
    assert(B::answer(s, Request::MinusOne) == Ok::<nat, Text>((read.modulus - 1) as nat));
}

proof fn sim_plus_one<B: ZKBackend>(
    read: Reading,
    s: BackendState,
    is_boolean: bool,
    x: nat,
    w: nat,
)
    requires
        simulates::<B>(read),
        (read.good)(s),
        (read.value)(s, w) == Some(x),
        bits_permitted(read, is_boolean),
    ensures
        plus_one::<PlaintextBackend>(plain_state(read.modulus), is_boolean, x).0 == plain_state(
            read.modulus,
        ),
        plus_one::<PlaintextBackend>(plain_state(read.modulus), is_boolean, x).1 is Ok,
        agrees(
            read,
            s,
            plus_one::<PlaintextBackend>(plain_state(read.modulus), is_boolean, x).1,
            plus_one::<B>(s, is_boolean, w),
        ),
{
    let r = if is_boolean {
        Request::Not(w)
    } else {
        Request::AddConstant(w, 1)
    };
    let t = B::after(s, r);
    assert(B::answer(s, Request::MinusOne) == Ok::<nat, Text>((read.modulus - 1) as nat));
}

proof fn sim_mul<B: ZKBackend>(
    read: Reading,
    s: BackendState,
    is_boolean: bool,
    x: nat,
    y: nat,
    a: nat,
    b: nat,
)
    requires
        simulates::<B>(read),
        (read.good)(s),
        (read.value)(s, a) == Some(x),
        (read.value)(s, b) == Some(y),
        bits_permitted(read, is_boolean),
    ensures
        plain_answer(read.modulus, mul_request(is_boolean, x, y)) is Ok,
        agrees(
            read,
            s,
            plain_answer(read.modulus, mul_request(is_boolean, x, y)),
            ask::<B>(s, mul_request(is_boolean, a, b)),
        ),
{
    let t = B::after(s, mul_request(is_boolean, a, b));
}

proof fn sim_add<B: ZKBackend>(
    read: Reading,
    s: BackendState,
    is_boolean: bool,
    x: nat,
    y: nat,
    a: nat,
    b: nat,
)
    requires
        simulates::<B>(read),
        (read.good)(s),
        (read.value)(s, a) == Some(x),
        (read.value)(s, b) == Some(y),
        bits_permitted(read, is_boolean),
    ensures
        plain_answer(read.modulus, add_request(is_boolean, x, y)) is Ok,
        agrees(
            read,
            s,
            plain_answer(read.modulus, add_request(is_boolean, x, y)),
            ask::<B>(s, add_request(is_boolean, a, b)),
        ),
{
    let t = B::after(s, add_request(is_boolean, a, b));
}

proof fn sim_copy<B: ZKBackend>(read: Reading, s: BackendState, x: nat, a: nat)
    requires
        simulates::<B>(read),
        (read.good)(s),
        (read.value)(s, a) == Some(x),
    ensures
        agrees(read, s, Ok(x), ask::<B>(s, Request::Copy(a))),
{
    let t = B::after(s, Request::Copy(a));
}

proof fn sim_constant<B: ZKBackend>(read: Reading, s: BackendState, c: nat)
    requires
        simulates::<B>(read),
        (read.good)(s),
        permitted(read, Request::Constant(c)),
    ensures
        agrees(read, s, Ok(c), ask::<B>(s, Request::Constant(c))),
{
    let t = B::after(s, Request::Constant(c));
}

proof fn sim_power<B: ZKBackend>(
    read: Reading,
    s: BackendState,
    is_boolean: bool,
    x: nat,
    w: nat,
    exponent: nat,
)
    requires
        simulates::<B>(read),
        (read.good)(s),
        (read.value)(s, w) == Some(x),
        bits_permitted(read, is_boolean),
    ensures
        power::<PlaintextBackend>(plain_state(read.modulus), is_boolean, x, exponent).0
            == plain_state(read.modulus),
        power::<PlaintextBackend>(plain_state(read.modulus), is_boolean, x, exponent).1 is Ok,
        agrees(
            read,
            s,
            power::<PlaintextBackend>(plain_state(read.modulus), is_boolean, x, exponent).1,
            power::<B>(s, is_boolean, w, exponent),
        ),
    decreases exponent,
{
    let p = plain_state(read.modulus);
    if exponent <= 1 {
        sim_copy::<B>(read, s, x, w);
    } else {
        sim_power::<B>(read, s, is_boolean, x, w, exponent / 2);
        let xp = power::<PlaintextBackend>(p, is_boolean, x, exponent / 2).1->Ok_0;
        let (s1, root) = power::<B>(s, is_boolean, w, exponent / 2);
        assert(plain_answer(read.modulus, mul_request(is_boolean, xp, xp)) is Ok);
        let xq = plain_answer(read.modulus, mul_request(is_boolean, xp, xp))->Ok_0;
        assert(plain_answer(read.modulus, mul_request(is_boolean, xq, x)) is Ok);
        if root is Ok {
            let wp = root->Ok_0;
            sim_mul::<B>(read, s1, is_boolean, xp, xp, wp, wp);
            let (s2, square) = ask::<B>(s1, mul_request(is_boolean, wp, wp));
            if exponent % 2 == 1 && square is Ok {
                sim_mul::<B>(read, s2, is_boolean, xq, x, square->Ok_0, w);
            }
        }
    }
}

proof fn sim_weight_of_case<B: ZKBackend>(
    read: Reading,
    s: BackendState,
    modulus: nat,
    is_boolean: bool,
    x: nat,
    y: nat,
    case_wire: nat,
    condition: nat,
)
    requires
        simulates::<B>(read),
        (read.good)(s),
        (read.value)(s, case_wire) == Some(x),
        (read.value)(s, condition) == Some(y),
        bits_permitted(read, is_boolean),
    ensures
        weight_of_case::<PlaintextBackend>(plain_state(read.modulus), modulus, is_boolean, x, y).0
            == plain_state(read.modulus),
        weight_of_case::<PlaintextBackend>(
            plain_state(read.modulus),
            modulus,
            is_boolean,
            x,
            y,
        ).1 is Ok,
        agrees(
            read,
            s,
            weight_of_case::<PlaintextBackend>(
                plain_state(read.modulus),
                modulus,
                is_boolean,
                x,
                y,
            ).1,
            weight_of_case::<B>(s, modulus, is_boolean, case_wire, condition),
        ),
{
    let p = plain_state(read.modulus);
    let exponent = (modulus - 1) as nat;
    sim_negated::<B>(read, s, is_boolean, y, condition);
    let xm = negated::<PlaintextBackend>(p, is_boolean, y).1->Ok_0;
    let (s1, minus) = negated::<B>(s, is_boolean, condition);
    assert(plain_answer(read.modulus, add_request(is_boolean, x, xm)) is Ok);
    let xb = plain_answer(read.modulus, add_request(is_boolean, x, xm))->Ok_0;
    // The plaintext goes through whatever the backend does.
    plain_power(read.modulus, is_boolean, xb, exponent);
    let xe = power::<PlaintextBackend>(p, is_boolean, xb, exponent).1->Ok_0;
    let xr = negated::<PlaintextBackend>(p, is_boolean, xe).1->Ok_0;
    assert(negated::<PlaintextBackend>(p, is_boolean, xe).1 is Ok);
    assert(plus_one::<PlaintextBackend>(p, is_boolean, xr).1 is Ok);
    if minus is Ok {
        sim_add::<B>(read, s1, is_boolean, x, xm, case_wire, minus->Ok_0);
        let (s2, base) = ask::<B>(s1, add_request(is_boolean, case_wire, minus->Ok_0));
        if base is Ok {
            sim_power::<B>(read, s2, is_boolean, xb, base->Ok_0, exponent);
            let (s3, to_exp) = power::<B>(s2, is_boolean, base->Ok_0, exponent);
            if to_exp is Ok {
                sim_negated::<B>(read, s3, is_boolean, xe, to_exp->Ok_0);
                let (s4, right) = negated::<B>(s3, is_boolean, to_exp->Ok_0);
                if right is Ok {
                    sim_plus_one::<B>(read, s4, is_boolean, xr, right->Ok_0);
                }
            }
        }
    }
}

/// In plaintext, a power is always computed.
pub proof fn plain_power(m: nat, is_boolean: bool, x: nat, exponent: nat)
    requires
        m > 0,
    ensures
        power::<PlaintextBackend>(plain_state(m), is_boolean, x, exponent).0 == plain_state(m),
        power::<PlaintextBackend>(plain_state(m), is_boolean, x, exponent).1 is Ok,
    decreases exponent,
{
    if exponent > 1 {
        plain_power(m, is_boolean, x, exponent / 2);
        let xp = power::<PlaintextBackend>(plain_state(m), is_boolean, x, exponent / 2).1->Ok_0;
        assert(plain_answer(m, mul_request(is_boolean, xp, xp)) is Ok);
        let xq = plain_answer(m, mul_request(is_boolean, xp, xp))->Ok_0;
        assert(plain_answer(m, mul_request(is_boolean, xq, x)) is Ok);
    }
}

proof fn sim_weight<B: ZKBackend>(
    read: Reading,
    s: BackendState,
    env: Env,
    wp: Option<nat>,
    wb: Option<nat>,
    case: Seq<u8>,
    y: nat,
    condition: nat,
)
    requires
        simulates::<B>(read),
        (read.good)(s),
        same_weight(read, s, wp, wb),
        (read.value)(s, condition) == Some(y),
        bits_permitted(read, env.is_boolean),
        read.all || (read.dialect.input)(le_value(case)),
    ensures
        nested_weight::<PlaintextBackend>(plain_state(read.modulus), env, wp, case, y).0
            == plain_state(read.modulus),
        agrees(
            read,
            s,
            nested_weight::<PlaintextBackend>(plain_state(read.modulus), env, wp, case, y).1,
            nested_weight::<B>(s, env, wb, case, condition),
        ),
{
    let p = plain_state(read.modulus);
    if env.modulus >= 2 {
        let c = le_value(case);
        assert(B::parse(case) == Ok::<nat, Text>(c));
        sim_constant::<B>(read, s, c);
        let (s1, case_wire) = ask::<B>(s, Request::Constant(c));
        plain_weight(read.modulus, env.modulus, env.is_boolean, c, y);
        let own_p = weight_of_case::<PlaintextBackend>(p, env.modulus, env.is_boolean, c, y);
        if wp is Some {
            assert(plain_answer(
                read.modulus,
                mul_request(env.is_boolean, wp->Some_0, own_p.1->Ok_0),
            ) is Ok);
        }
        if case_wire is Ok {
            sim_weight_of_case::<B>(
                read,
                s1,
                env.modulus,
                env.is_boolean,
                c,
                y,
                case_wire->Ok_0,
                condition,
            );
            let (s2, own) = weight_of_case::<B>(
                s1,
                env.modulus,
                env.is_boolean,
                case_wire->Ok_0,
                condition,
            );
            if own is Ok && wb is Some {
                sim_mul::<B>(
                    read,
                    s2,
                    env.is_boolean,
                    wp->Some_0,
                    own_p.1->Ok_0,
                    wb->Some_0,
                    own->Ok_0,
                );
            }
        }
    }
}

/// In plaintext, the weight of a branch is always computed.
pub proof fn plain_weight(m: nat, modulus: nat, is_boolean: bool, x: nat, y: nat)
    requires
        m > 0,
    ensures
        weight_of_case::<PlaintextBackend>(plain_state(m), modulus, is_boolean, x, y).0
            == plain_state(m),
        weight_of_case::<PlaintextBackend>(plain_state(m), modulus, is_boolean, x, y).1 is Ok,
{
    let p = plain_state(m);
    let exponent = (modulus - 1) as nat;
    let xm = negated::<PlaintextBackend>(p, is_boolean, y).1->Ok_0;
    assert(plain_answer(m, add_request(is_boolean, x, xm)) is Ok);
    let xb = plain_answer(m, add_request(is_boolean, x, xm))->Ok_0;
    plain_power(m, is_boolean, xb, exponent);
    let xe = power::<PlaintextBackend>(p, is_boolean, xb, exponent).1->Ok_0;
    let xr = negated::<PlaintextBackend>(p, is_boolean, xe).1->Ok_0;
    assert(negated::<PlaintextBackend>(p, is_boolean, xe).1 is Ok);
    assert(plus_one::<PlaintextBackend>(p, is_boolean, xr).1 is Ok);
}

/// Whether scopes that were filled are those of the plaintext.
spec fn same_filling(
    read: Reading,
    s: BackendState,
    p: (BackendState, Scope, Result<(), Text>),
    b: (BackendState, Scope, Result<(), Text>),
) -> bool {
    &&& p.0 == plain_state(read.modulus)
    &&& match b.2 {
        Err(t) => p.2 is Err || (read.gave_up)(t),
        Ok(_) => match p.2 {
            Ok(_) => (read.good)(b.0) && lasting(read, s, b.0) && same_scope(read, b.0, p.1, b.1),
            Err(_) => (read.bad)(b.0),
        },
    }
}

proof fn sim_loaded<B: ZKBackend>(
    read: Reading,
    s: BackendState,
    scope_p: Scope,
    scope_b: Scope,
    inputs: Seq<u64>,
    output_count: nat,
    k: nat,
    inner_p: Scope,
    inner_b: Scope,
)
    requires
        simulates::<B>(read),
        (read.good)(s),
        same_scope(read, s, scope_p, scope_b),
        same_scope(read, s, inner_p, inner_b),
    ensures
        same_filling(
            read,
            s,
            loaded::<PlaintextBackend>(
                plain_state(read.modulus),
                scope_p,
                inputs,
                output_count,
                k,
                inner_p,
            ),
            loaded::<B>(s, scope_b, inputs, output_count, k, inner_b),
        ),
    decreases inputs.len() - k,
{
    if k < inputs.len() && scope_b.contains_key(inputs[k as int]) {
        assert(scope_p.contains_key(inputs[k as int]));
        let x = scope_p[inputs[k as int]];
        let w = scope_b[inputs[k as int]];
        sim_copy::<B>(read, s, x, w);
        let (s1, copy) = ask::<B>(s, Request::Copy(w));
        let id = ((k + output_count) % 0x1_0000_0000_0000_0000) as u64;
        assert(inner_p.contains_key(id) == inner_b.contains_key(id));
        plain_loaded(read.modulus, scope_p, inputs, output_count, k + 1, inner_p.insert(id, x));
        if copy is Ok && !inner_b.contains_key(id) {
            assert(same_scope(
                read,
                s1,
                inner_p.insert(id, x),
                inner_b.insert(id, copy->Ok_0),
            )) by {
                assert(inner_p.insert(id, x).dom() =~= inner_b.insert(id, copy->Ok_0).dom());
            }
            sim_loaded::<B>(
                read,
                s1,
                scope_p,
                scope_b,
                inputs,
                output_count,
                k + 1,
                inner_p.insert(id, x),
                inner_b.insert(id, copy->Ok_0),
            );
        }
    } else if k < inputs.len() {
        assert(!scope_p.contains_key(inputs[k as int]));
    }
}

proof fn plain_loaded(
    m: nat,
    scope: Scope,
    inputs: Seq<u64>,
    output_count: nat,
    k: nat,
    inner: Scope,
)
    ensures
        loaded::<PlaintextBackend>(plain_state(m), scope, inputs, output_count, k, inner).0
            == plain_state(m),
    decreases inputs.len() - k,
{
    if k < inputs.len() && scope.contains_key(inputs[k as int]) {
        let id = ((k + output_count) % 0x1_0000_0000_0000_0000) as u64;
        plain_loaded(
            m,
            scope,
            inputs,
            output_count,
            k + 1,
            inner.insert(id, scope[inputs[k as int]]),
        );
    }
}

proof fn sim_gathered<B: ZKBackend>(
    read: Reading,
    s: BackendState,
    scope_p: Scope,
    scope_b: Scope,
    inputs: Seq<u64>,
    k: nat,
    branch_p: Scope,
    branch_b: Scope,
)
    requires
        simulates::<B>(read),
        (read.good)(s),
        same_scope(read, s, scope_p, scope_b),
        same_scope(read, s, branch_p, branch_b),
    ensures
        same_filling(
            read,
            s,
            gathered::<PlaintextBackend>(plain_state(read.modulus), scope_p, inputs, k, branch_p),
            gathered::<B>(s, scope_b, inputs, k, branch_b),
        ),
    decreases inputs.len() - k,
{
    if k < inputs.len() && scope_b.contains_key(inputs[k as int]) {
        let id = inputs[k as int];
        assert(scope_p.contains_key(id));
        let x = scope_p[id];
        let w = scope_b[id];
        sim_copy::<B>(read, s, x, w);
        let (s1, copy) = ask::<B>(s, Request::Copy(w));
        plain_gathered(read.modulus, scope_p, inputs, k + 1, branch_p.insert(id, x));
        if copy is Ok {
            assert(same_scope(
                read,
                s1,
                branch_p.insert(id, x),
                branch_b.insert(id, copy->Ok_0),
            )) by {
                assert(branch_p.insert(id, x).dom() =~= branch_b.insert(id, copy->Ok_0).dom());
            }
            sim_gathered::<B>(
                read,
                s1,
                scope_p,
                scope_b,
                inputs,
                k + 1,
                branch_p.insert(id, x),
                branch_b.insert(id, copy->Ok_0),
            );
        }
    } else if k < inputs.len() {
        assert(!scope_p.contains_key(inputs[k as int]));
    }
}

proof fn plain_gathered(m: nat, scope: Scope, inputs: Seq<u64>, k: nat, branch: Scope)
    ensures
        gathered::<PlaintextBackend>(plain_state(m), scope, inputs, k, branch).0 == plain_state(m),
    decreases inputs.len() - k,
{
    if k < inputs.len() && scope.contains_key(inputs[k as int]) {
        plain_gathered(
            m,
            scope,
            inputs,
            k + 1,
            branch.insert(inputs[k as int], scope[inputs[k as int]]),
        );
    }
}

/// Giving a wire the same value keeps machines the same.
proof fn sim_store(
    read: Reading,
    s: BackendState,
    p: Machine,
    b: Machine,
    plain: Answer,
    reply: Reply,
    id: u64,
)
    requires
        p.backend == plain_state(read.modulus),
        same_scope(read, s, p.scope, b.scope),
        p.iterators == b.iterators,
        p.instances == b.instances,
        p.witnesses == b.witnesses,
        stocked(read, b.instances),
        stocked(read, b.witnesses),
        agrees(read, s, plain, reply),
    ensures
        same_outcome(
            read,
            s,
            store(p, (plain_state(read.modulus), plain), id),
            store(b, reply, id),
        ),
{
    assert(p.scope.contains_key(id) == b.scope.contains_key(id));
    if plain is Ok && reply.1 is Ok {
        assert(p.scope.insert(id, plain->Ok_0).dom() =~= b.scope.insert(id, reply.1->Ok_0).dom());
    }
}

proof fn sim_unloaded<B: ZKBackend>(
    read: Reading,
    p: Machine,
    b: Machine,
    inner_p: Scope,
    inner_b: Scope,
    outputs: Seq<u64>,
    k: nat,
)
    requires
        simulates::<B>(read),
        same_machine(read, p, b),
        same_scope(read, b.backend, inner_p, inner_b),
    ensures
        same_outcome(
            read,
            b.backend,
            unloaded::<PlaintextBackend>(p, inner_p, outputs, k),
            unloaded::<B>(b, inner_b, outputs, k),
        ),
    decreases outputs.len() - k,
{
    if k < outputs.len() && inner_b.contains_key(k as u64) {
        assert(inner_p.contains_key(k as u64));
        let x = inner_p[k as u64];
        let w = inner_b[k as u64];
        sim_copy::<B>(read, b.backend, x, w);
        let reply = ask::<B>(b.backend, Request::Copy(w));
        sim_store(read, b.backend, p, b, Ok(x), reply, outputs[k as int]);
        let (p1, rp) = store(p, (p.backend, Ok(x)), outputs[k as int]);
        let (b1, rb) = store(b, reply, outputs[k as int]);
        if rb is Ok {
            if rp is Ok {
                sim_unloaded::<B>(read, p1, b1, inner_p, inner_b, outputs, k + 1);
            } else {
                keeps_unloaded::<B>(read.bad, b1, inner_b, outputs, k + 1);
            }
        }
    } else if k < outputs.len() {
        assert(!inner_p.contains_key(k as u64));
    }
}

/// Whether branches that were evaluated are those of the plaintext.
spec fn same_branches(read: Reading, s: BackendState, p: Branches, b: Branches) -> bool {
    &&& p.0.len() == b.0.len()
    &&& p.1.len() == b.1.len()
    &&& p.0.len() == p.1.len()
    &&& forall|i: int| 0 <= i < b.0.len() ==> same_scope(read, s, p.0[i], #[trigger] b.0[i])
    &&& forall|i: int|
        0 <= i < b.1.len() ==> (read.value)(s, #[trigger] b.1[i]) == Some(p.1[i])
}

proof fn lemma_same_later(read: Reading, s: BackendState, t: BackendState, p: Scope, b: Scope)
    requires
        same_scope(read, s, p, b),
        lasting(read, s, t),
    ensures
        same_scope(read, t, p, b),
{
    assert forall|k: u64| b.contains_key(k) implies (read.value)(t, #[trigger] b[k]) == Some(
        p[k],
    ) by {
        assert((read.value)(s, b[k]) == Some(p[k]));
    }
}

proof fn lemma_branches_later(
    read: Reading,
    s: BackendState,
    t: BackendState,
    p: Branches,
    b: Branches,
)
    requires
        same_branches(read, s, p, b),
        lasting(read, s, t),
    ensures
        same_branches(read, t, p, b),
{
    assert forall|i: int| 0 <= i < b.0.len() implies same_scope(
        read,
        t,
        p.0[i],
        #[trigger] b.0[i],
    ) by {
        lemma_same_later(read, s, t, p.0[i], b.0[i]);
    }
}

/// Whether sums so far are the same.
spec fn same_sum(read: Reading, s: BackendState, p: Answer, b: Answer) -> bool {
    match b {
        Err(t) => p is Err || (read.gave_up)(t),
        Ok(w) => match p {
            Ok(x) => (read.value)(s, w) == Some(x),
            Err(_) => false,
        },
    }
}

/// Whether a sum is that of the plaintext.
spec fn same_total(read: Reading, s: BackendState, p: Reply, b: Reply) -> bool {
    &&& p.0 == plain_state(read.modulus)
    &&& (read.good)(b.0)
    &&& lasting(read, s, b.0)
    &&& same_sum(read, b.0, p.1, b.1)
}

proof fn sim_sum<B: ZKBackend>(
    read: Reading,
    s: BackendState,
    is_boolean: bool,
    p: Branches,
    b: Branches,
    id: u64,
    k: nat,
    sum_p: Answer,
    sum_b: Answer,
)
    requires
        simulates::<B>(read),
        (read.good)(s),
        same_branches(read, s, p, b),
        same_sum(read, s, sum_p, sum_b),
        bits_permitted(read, is_boolean),
    ensures
        same_total(
            read,
            s,
            weighted_sum::<PlaintextBackend>(
                plain_state(read.modulus),
                is_boolean,
                p.0,
                p.1,
                id,
                k,
                sum_p,
            ),
            weighted_sum::<B>(s, is_boolean, b.0, b.1, id, k, sum_b),
        ),
    decreases b.0.len() - k,
{
    if k < b.0.len() {
        assert(same_scope(read, s, p.0[k as int], b.0[k as int]));
        assert(p.0[k as int].contains_key(id) == b.0[k as int].contains_key(id));
        if !b.0[k as int].contains_key(id) {
            let t = look(b.0[k as int], id)->Err_0;
            sim_sum::<B>(read, s, is_boolean, p, b, id, k + 1, Err(t), Err(t));
        } else {
            let x = p.0[k as int][id];
            let w = b.0[k as int][id];
            assert((read.value)(s, w) == Some(x));
            assert((read.value)(s, b.1[k as int]) == Some(p.1[k as int]));
            sim_mul::<B>(read, s, is_boolean, x, p.1[k as int], w, b.1[k as int]);
            let xp = plain_answer(read.modulus, mul_request(is_boolean, x, p.1[k as int]))->Ok_0;
            let (s1, product) = ask::<B>(s, mul_request(is_boolean, w, b.1[k as int]));
            lemma_branches_later(read, s, s1, p, b);
            let next_p = if sum_p is Ok {
                plain_answer(read.modulus, add_request(is_boolean, sum_p->Ok_0, xp))
            } else {
                sum_p
            };
            match product {
                Err(t) => {
                    sim_sum::<B>(read, s1, is_boolean, p, b, id, k + 1, next_p, Err(t));
                },
                Ok(wp) => match sum_b {
                    Err(t) => {
                        sim_sum::<B>(read, s1, is_boolean, p, b, id, k + 1, next_p, Err(t));
                    },
                    Ok(a) => {
                        sim_add::<B>(read, s1, is_boolean, sum_p->Ok_0, xp, a, wp);
                        let (s2, next) = ask::<B>(s1, add_request(is_boolean, a, wp));
                        lemma_branches_later(read, s1, s2, p, b);
                        sim_sum::<B>(read, s2, is_boolean, p, b, id, k + 1, next_p, next);
                    },
                },
            }
        }
    }
}

proof fn sim_merged<B: ZKBackend>(
    read: Reading,
    p: Machine,
    b: Machine,
    is_boolean: bool,
    done_p: Branches,
    done_b: Branches,
    outputs: Seq<u64>,
    k: nat,
)
    requires
        simulates::<B>(read),
        same_machine(read, p, b),
        same_branches(read, b.backend, done_p, done_b),
        bits_permitted(read, is_boolean),
    ensures
        same_outcome(
            read,
            b.backend,
            merged::<PlaintextBackend>(p, is_boolean, done_p.0, done_p.1, outputs, k),
            merged::<B>(b, is_boolean, done_b.0, done_b.1, outputs, k),
        ),
    decreases outputs.len() - k,
{
    if k < outputs.len() {
        let s = b.backend;
        assert(B::answer(s, Request::MinusOne) == Ok::<nat, Text>((read.modulus - 1) as nat));
        sim_constant::<B>(read, s, 0);
        let (s1, zero) = ask::<B>(s, Request::Constant(0));
        let id = outputs[k as int];
        lemma_branches_later(read, s, s1, done_p, done_b);
        sim_sum::<B>(read, s1, is_boolean, done_p, done_b, id, 0, Ok(0), zero);
        let total_p = weighted_sum::<PlaintextBackend>(
            plain_state(read.modulus),
            is_boolean,
            done_p.0,
            done_p.1,
            id,
            0,
            Ok(0),
        );
        let total_b = weighted_sum::<B>(s1, is_boolean, done_b.0, done_b.1, id, 0, zero);
        sim_store(read, s, p, b, total_p.1, total_b, id);
        let (p1, rp) = store(p, total_p, id);
        let (b1, rb) = store(b, total_b, id);
        if rb is Ok {
            if rp is Ok {
                lemma_branches_later(read, s, b1.backend, done_p, done_b);
                sim_merged::<B>(read, p1, b1, is_boolean, done_p, done_b, outputs, k + 1);
            } else {
                keeps_merged::<B>(
                    read.bad,
                    b1,
                    is_boolean,
                    done_b.0,
                    done_b.1,
                    outputs,
                    k + 1,
                );
            }
        }
    }
}

proof fn sim_asserted<B: ZKBackend>(
    read: Reading,
    env: Env,
    wp: Option<nat>,
    wb: Option<nat>,
    p: Machine,
    b: Machine,
    id: u64,
)
    requires
        simulates::<B>(read),
        same_machine(read, p, b),
        same_weight(read, b.backend, wp, wb),
        bits_permitted(read, env.is_boolean),
    ensures
        same_outcome(
            read,
            b.backend,
            asserted::<PlaintextBackend>(env, wp, p, id),
            asserted::<B>(env, wb, b, id),
        ),
{
    let s = b.backend;
    assert(p.scope.contains_key(id) == b.scope.contains_key(id));
    if b.scope.contains_key(id) {
        let x = p.scope[id];
        let w = b.scope[id];
        assert((read.value)(s, w) == Some(x));
        let (s1, tested) = match wb {
            Some(y) => ask::<B>(s, mul_request(env.is_boolean, y, w)),
            None => ask::<B>(s, Request::Copy(w)),
        };
        let z = match wp {
            Some(y) => plain_answer(read.modulus, mul_request(env.is_boolean, y, x))->Ok_0,
            None => x,
        };
        if wb is Some {
            sim_mul::<B>(read, s, env.is_boolean, wp->Some_0, x, wb->Some_0, w);
        } else {
            sim_copy::<B>(read, s, x, w);
        }
        if tested is Ok {
            let t = B::after(s1, Request::AssertZero(tested->Ok_0));
            assert(valued(read, s1, Request::AssertZero(tested->Ok_0)) == Some(
                Request::AssertZero(z),
            ));
            assert(agrees_on_zero(
                read,
                s1,
                plain_answer(read.modulus, Request::AssertZero(z)),
                ask::<B>(s1, Request::AssertZero(tested->Ok_0)),
            ));
            if B::answer(s1, Request::AssertZero(tested->Ok_0)) is Ok && z == 0 {
                assert(lasting(read, s, t));
                lemma_same_later(read, s, t, p.scope, b.scope);
            }
        }
    }
}

proof fn sim_freed(read: Reading, p: Machine, b: Machine, first: int, last: int)
    requires
        same_machine(read, p, b),
    ensures
        same_outcome(read, b.backend, freed(p, first, last), freed(b, first, last)),
    decreases last - first + 1,
{
    if first <= last {
        let id = first as u64;
        assert(p.scope.contains_key(id) == b.scope.contains_key(id));
        if b.scope.contains_key(id) {
            assert(p.scope.remove(id).dom() =~= b.scope.remove(id).dom());
            sim_freed(
                read,
                Machine { scope: p.scope.remove(id), ..p },
                Machine { scope: b.scope.remove(id), ..b },
                first + 1,
                last,
            );
        }
    }
}

/// A gate that runs no others does what it does in plaintext.
proof fn sim_elementary<B: ZKBackend>(
    read: Reading,
    gate: Gate,
    env: Env,
    wp: Option<nat>,
    wb: Option<nat>,
    depth: nat,
    p: Machine,
    b: Machine,
)
    requires
        simulates::<B>(read),
        same_machine(read, p, b),
        same_weight(read, b.backend, wp, wb),
        permitted_env(read, env),
        read.all || spoken(read.dialect, gate),
        !(gate is Call || gate is AnonCall || gate is For || gate is Switch),
    ensures
        same_outcome(
            read,
            b.backend,
            run_gate::<PlaintextBackend>(gate, env, wp, depth, p),
            run_gate::<B>(gate, env, wb, depth, b),
        ),
{
    let s = b.backend;
    let m = read.modulus;
    match gate {
        Gate::Constant(out, value) => {
            let c = le_value(value@);
            assert(B::parse(value@) == Ok::<nat, Text>(c));
            sim_constant::<B>(read, s, c);
            sim_store(read, s, p, b, Ok(c), ask::<B>(s, Request::Constant(c)), out);
        },
        Gate::AssertZero(inp) => {
            sim_asserted::<B>(read, env, wp, wb, p, b, inp);
        },
        Gate::Copy(out, a) => {
            sim_unary::<B>(read, p, b, out, a, |x: nat| Request::Copy(x));
        },
        Gate::Not(out, a) => {
            sim_unary::<B>(read, p, b, out, a, |x: nat| Request::Not(x));
        },
        Gate::Add(out, a, c) => {
            sim_binary::<B>(read, p, b, out, a, c, |x: nat, y: nat| Request::Add(x, y));
        },
        Gate::Mul(out, a, c) => {
            sim_binary::<B>(read, p, b, out, a, c, |x: nat, y: nat| Request::Multiply(x, y));
        },
        Gate::And(out, a, c) => {
            sim_binary::<B>(read, p, b, out, a, c, |x: nat, y: nat| Request::And(x, y));
        },
        Gate::Xor(out, a, c) => {
            sim_binary::<B>(read, p, b, out, a, c, |x: nat, y: nat| Request::Xor(x, y));
        },
        Gate::AddConstant(out, a, value) => {
            sim_with_constant::<B>(
                read,
                p,
                b,
                out,
                a,
                value@,
                |x: nat, c: nat| Request::AddConstant(x, c),
            );
        },
        Gate::MulConstant(out, a, value) => {
            sim_with_constant::<B>(
                read,
                p,
                b,
                out,
                a,
                value@,
                |x: nat, c: nat| Request::MulConstant(x, c),
            );
        },
        Gate::Instance(out) => {
            if b.instances.len() > 0 {
                let x = b.instances[0];
                let t = B::after(s, Request::Instance(x));
                sim_store(
                    read,
                    s,
                    Machine { instances: p.instances.drop_first(), ..p },
                    Machine { instances: b.instances.drop_first(), ..b },
                    Ok(x),
                    ask::<B>(s, Request::Instance(x)),
                    out,
                );
            }
        },
        Gate::Witness(out) => {
            let x = if b.witnesses.len() > 0 {
                Some(b.witnesses[0])
            } else {
                None
            };
            let rest = if b.witnesses.len() > 0 {
                b.witnesses.drop_first()
            } else {
                b.witnesses
            };
            let t = B::after(s, Request::Witness(x));
            sim_store(
                read,
                s,
                Machine { witnesses: rest, ..p },
                Machine { witnesses: rest, ..b },
                plain_answer(m, Request::Witness(x)),
                ask::<B>(s, Request::Witness(x)),
                out,
            );
        },
        Gate::Free(first, last) => {
            sim_freed(
                read,
                p,
                b,
                first as int,
                match last {
                    Some(id) => id as int,
                    None => first as int,
                },
            );
        },
        _ => {},
    }
}

proof fn sim_unary<B: ZKBackend>(
    read: Reading,
    p: Machine,
    b: Machine,
    out: u64,
    a: u64,
    request: spec_fn(nat) -> Request,
)
    requires
        simulates::<B>(read),
        same_machine(read, p, b),
        forall|x: nat| permitted(read, #[trigger] request(x)),
        forall|x: nat| !(#[trigger] request(x) is AssertZero || request(x) is SetField),
        forall|x: nat, w: nat|
            #![trigger (read.value)(b.backend, w), request(x)]
            (read.value)(b.backend, w) == Some(x) ==> valued(read, b.backend, request(w)) == Some(
                request(x),
            ),
    ensures
        same_outcome(
            read,
            b.backend,
            unary::<PlaintextBackend>(p, out, a, request),
            unary::<B>(b, out, a, request),
        ),
{
    let s = b.backend;
    assert(p.scope.contains_key(a) == b.scope.contains_key(a));
    if b.scope.contains_key(a) {
        let x = p.scope[a];
        let w = b.scope[a];
        assert((read.value)(s, w) == Some(x));
        assert(permitted(read, request(w)) && permitted(read, request(x)));
        assert(valued(read, s, request(w)) == Some(request(x)));
        let reply = (B::after(s, request(w)), B::answer(s, request(w)));
        sim_store(read, s, p, b, plain_answer(read.modulus, request(x)), reply, out);
    }
}

proof fn sim_binary<B: ZKBackend>(
    read: Reading,
    p: Machine,
    b: Machine,
    out: u64,
    a: u64,
    c: u64,
    request: spec_fn(nat, nat) -> Request,
)
    requires
        simulates::<B>(read),
        same_machine(read, p, b),
        forall|x: nat, y: nat| permitted(read, #[trigger] request(x, y)),
        forall|x: nat, y: nat|
            !(#[trigger] request(x, y) is AssertZero || request(x, y) is SetField),
        forall|x: nat, w: nat, y: nat, v: nat|
            #![trigger request(x, y), request(w, v)]
            (read.value)(b.backend, w) == Some(x) && (read.value)(b.backend, v) == Some(y)
                ==> valued(read, b.backend, request(w, v)) == Some(request(x, y)),
    ensures
        same_outcome(
            read,
            b.backend,
            binary::<PlaintextBackend>(p, out, a, c, request),
            binary::<B>(b, out, a, c, request),
        ),
{
    let s = b.backend;
    assert(p.scope.contains_key(a) == b.scope.contains_key(a));
    assert(p.scope.contains_key(c) == b.scope.contains_key(c));
    if b.scope.contains_key(a) && b.scope.contains_key(c) {
        let (x, y) = (p.scope[a], p.scope[c]);
        let (w, v) = (b.scope[a], b.scope[c]);
        assert((read.value)(s, w) == Some(x));
        assert((read.value)(s, v) == Some(y));
        assert(permitted(read, request(w, v)) && permitted(read, request(x, y)));
        assert(valued(read, s, request(w, v)) == Some(request(x, y)));
        let reply = (B::after(s, request(w, v)), B::answer(s, request(w, v)));
        sim_store(read, s, p, b, plain_answer(read.modulus, request(x, y)), reply, out);
    }
}

proof fn sim_with_constant<B: ZKBackend>(
    read: Reading,
    p: Machine,
    b: Machine,
    out: u64,
    a: u64,
    constant: Seq<u8>,
    request: spec_fn(nat, nat) -> Request,
)
    requires
        simulates::<B>(read),
        same_machine(read, p, b),
        forall|x: nat, y: nat| permitted(read, #[trigger] request(x, y)),
        forall|x: nat, y: nat|
            !(#[trigger] request(x, y) is AssertZero || request(x, y) is SetField),
        forall|x: nat, w: nat, c: nat|
            #![trigger request(x, c), request(w, c)]
            (read.value)(b.backend, w) == Some(x) ==> valued(
                read,
                b.backend,
                request(w, c),
            ) == Some(request(x, c)),
    ensures
        same_outcome(
            read,
            b.backend,
            with_constant::<PlaintextBackend>(p, out, a, constant, request),
            with_constant::<B>(b, out, a, constant, request),
        ),
{
    let s = b.backend;
    let c = le_value(constant);
    assert(B::parse(constant) == Ok::<nat, Text>(c));
    assert(p.scope.contains_key(a) == b.scope.contains_key(a));
    if b.scope.contains_key(a) {
        let x = p.scope[a];
        let w = b.scope[a];
        assert((read.value)(s, w) == Some(x));
        assert(permitted(read, request(w, c)) && permitted(read, request(x, c)));
        assert(valued(read, s, request(w, c)) == Some(request(x, c)));
        let reply = (B::after(s, request(w, c)), B::answer(s, request(w, c)));
        sim_store(read, s, p, b, plain_answer(read.modulus, request(x, c)), reply, out);
    }
}

/// Gates do what they do in plaintext.
proof fn sim_gates<B: ZKBackend>(
    read: Reading,
    gates: Seq<Gate>,
    k: nat,
    env: Env,
    wp: Option<nat>,
    wb: Option<nat>,
    depth: nat,
    p: Machine,
    b: Machine,
)
    requires
        simulates::<B>(read),
        same_machine(read, p, b),
        same_weight(read, b.backend, wp, wb),
        permitted_env(read, env),
        read.all || all_spoken(read.dialect, gates),
    ensures
        same_outcome(
            read,
            b.backend,
            run_gates::<PlaintextBackend>(gates, k, env, wp, depth, p),
            run_gates::<B>(gates, k, env, wb, depth, b),
        ),
    decreases depth, gates, gates.len() - k,
{
    if k < gates.len() {
        let gate = gates[k as int];
        sim_gate::<B>(read, gate, env, wp, wb, depth, p, b);
        let (p1, rp) = run_gate::<PlaintextBackend>(gate, env, wp, depth, p);
        let (b1, rb) = run_gate::<B>(gate, env, wb, depth, b);
        if rb is Ok {
            if rp is Ok {
                sim_gates::<B>(read, gates, k + 1, env, wp, wb, depth, p1, b1);
            } else {
                keeps_gates::<B>(read.bad, gates, k + 1, env, wb, depth, b1);
            }
        }
    }
}

proof fn sim_subcircuit<B: ZKBackend>(
    read: Reading,
    gates: Seq<Gate>,
    outputs: Seq<u64>,
    inputs: Seq<u64>,
    env: Env,
    wp: Option<nat>,
    wb: Option<nat>,
    depth: nat,
    p: Machine,
    b: Machine,
)
    requires
        simulates::<B>(read),
        same_machine(read, p, b),
        same_weight(read, b.backend, wp, wb),
        permitted_env(read, env),
        read.all || all_spoken(read.dialect, gates),
    ensures
        same_outcome(
            read,
            b.backend,
            run_subcircuit::<PlaintextBackend>(gates, outputs, inputs, env, wp, depth, p),
            run_subcircuit::<B>(gates, outputs, inputs, env, wb, depth, b),
        ),
    decreases depth, gates, gates.len() + 1,
{
    let none = Map::<u64, nat>::empty();
    sim_loaded::<B>(
        read,
        b.backend,
        p.scope,
        b.scope,
        inputs,
        outputs.len(),
        0,
        none,
        none,
    );
    let (sp, inner_p, r1p) = loaded::<PlaintextBackend>(
        p.backend,
        p.scope,
        inputs,
        outputs.len(),
        0,
        none,
    );
    let (sb, inner_b, r1b) = loaded::<B>(b.backend, b.scope, inputs, outputs.len(), 0, none);
    let p1 = Machine { backend: sp, scope: inner_p, ..p };
    let b1 = Machine { backend: sb, scope: inner_b, ..b };
    if r1b is Ok {
        let (b2, r2b) = run_gates::<B>(gates, 0, env, wb, depth, b1);
        let back_b = Machine { scope: b.scope, ..b2 };
        if r1p is Ok {
            sim_gates::<B>(read, gates, 0, env, wp, wb, depth, p1, b1);
            let (p2, r2p) = run_gates::<PlaintextBackend>(gates, 0, env, wp, depth, p1);
            let back_p = Machine { scope: p.scope, ..p2 };
            if r2b is Ok {
                if r2p is Ok {
                    lemma_same_later(read, b.backend, b2.backend, p.scope, b.scope);
                    sim_unloaded::<B>(read, back_p, back_b, p2.scope, b2.scope, outputs, 0);
                } else {
                    keeps_unloaded::<B>(read.bad, back_b, b2.scope, outputs, 0);
                }
            }
        } else {
            keeps_gates::<B>(read.bad, gates, 0, env, wb, depth, b1);
            if r2b is Ok {
                keeps_unloaded::<B>(read.bad, back_b, b2.scope, outputs, 0);
            }
        }
    }
}

proof fn sim_function<B: ZKBackend>(
    read: Reading,
    f: FunctionV,
    outputs: Seq<u64>,
    inputs: Seq<u64>,
    env: Env,
    wp: Option<nat>,
    wb: Option<nat>,
    depth: nat,
    p: Machine,
    b: Machine,
)
    requires
        simulates::<B>(read),
        same_machine(read, p, b),
        same_weight(read, b.backend, wp, wb),
        permitted_env(read, env),
        read.all || all_spoken(read.dialect, f.body),
    ensures
        same_outcome(
            read,
            b.backend,
            run_function::<PlaintextBackend>(f, outputs, inputs, env, wp, depth, p),
            run_function::<B>(f, outputs, inputs, env, wb, depth, b),
        ),
    decreases depth, f.body, f.body.len() + 2,
{
    sim_subcircuit::<B>(
        read,
        f.body,
        outputs,
        inputs,
        env,
        wp,
        wb,
        depth,
        Machine { iterators: Map::empty(), ..p },
        Machine { iterators: Map::empty(), ..b },
    );
}

proof fn sim_turn<B: ZKBackend>(
    read: Reading,
    body: ForLoopBody,
    env: Env,
    wp: Option<nat>,
    wb: Option<nat>,
    depth: nat,
    p: Machine,
    b: Machine,
)
    requires
        simulates::<B>(read),
        same_machine(read, p, b),
        same_weight(read, b.backend, wp, wb),
        permitted_env(read, env),
        read.all || spoken_body(read.dialect, body),
    ensures
        same_outcome(
            read,
            b.backend,
            run_turn::<PlaintextBackend>(body, env, wp, depth, p),
            run_turn::<B>(body, env, wb, depth, b),
        ),
    decreases depth, body, 0int,
{
    match body {
        ForLoopBody::IterExprCall(name, outputs, inputs) => {
            let f = known(env.functions, name@);
            lemma_known(env.functions, name@);
            let outs = evaluated(outputs@, b.iterators);
            let ins = evaluated(inputs@, b.iterators);
            if f is Some && outs is Ok && ins is Ok && depth > 0 {
                sim_function::<B>(
                    read,
                    f->Some_0,
                    outs->Ok_0,
                    ins->Ok_0,
                    env,
                    wp,
                    wb,
                    (depth - 1) as nat,
                    p,
                    b,
                );
            }
        },
        ForLoopBody::IterExprAnonCall(outputs, inputs, _, _, subcircuit) => {
            let outs = evaluated(outputs@, b.iterators);
            let ins = evaluated(inputs@, b.iterators);
            if outs is Ok && ins is Ok {
                sim_subcircuit::<B>(
                    read,
                    subcircuit@,
                    outs->Ok_0,
                    ins->Ok_0,
                    env,
                    wp,
                    wb,
                    depth,
                    p,
                    b,
                );
            }
        },
    }
}

proof fn sim_for<B: ZKBackend>(
    read: Reading,
    name: Text,
    current: int,
    last: int,
    body: ForLoopBody,
    env: Env,
    wp: Option<nat>,
    wb: Option<nat>,
    depth: nat,
    p: Machine,
    b: Machine,
)
    requires
        simulates::<B>(read),
        same_machine(read, p, b),
        same_weight(read, b.backend, wp, wb),
        permitted_env(read, env),
        read.all || spoken_body(read.dialect, body),
    ensures
        same_outcome(
            read,
            b.backend,
            run_for::<PlaintextBackend>(name, current, last, body, env, wp, depth, p),
            run_for::<B>(name, current, last, body, env, wb, depth, b),
        ),
    decreases depth, body, last - current + 2,
{
    if current <= last {
        let p0 = Machine { iterators: p.iterators.insert(name, current as u64), ..p };
        let b0 = Machine { iterators: b.iterators.insert(name, current as u64), ..b };
        sim_turn::<B>(read, body, env, wp, wb, depth, p0, b0);
        let (p1, rp) = run_turn::<PlaintextBackend>(body, env, wp, depth, p0);
        let (b1, rb) = run_turn::<B>(body, env, wb, depth, b0);
        if rb is Ok {
            if rp is Ok {
                sim_for::<B>(read, name, current + 1, last, body, env, wp, wb, depth, p1, b1);
            } else {
                keeps_for::<B>(read.bad, name, current + 1, last, body, env, wb, depth, b1);
            }
        }
    }
}

proof fn sim_branch<B: ZKBackend>(
    read: Reading,
    branch: CaseInvoke,
    outputs: Seq<u64>,
    env: Env,
    xp: nat,
    xb: nat,
    depth: nat,
    p: Machine,
    b: Machine,
)
    requires
        simulates::<B>(read),
        same_machine(read, p, b),
        same_weight(read, b.backend, Some(xp), Some(xb)),
        permitted_env(read, env),
        read.all || spoken_branch(read.dialect, branch),
    ensures
        same_outcome(
            read,
            b.backend,
            run_branch::<PlaintextBackend>(branch, outputs, env, xp, depth, p),
            run_branch::<B>(branch, outputs, env, xb, depth, b),
        ),
    decreases depth, branch, 0int,
{
    let none = Map::<u64, nat>::empty();
    let listed = match branch {
        CaseInvoke::AbstractGateCall(_, inputs) => expanded(inputs@),
        CaseInvoke::AbstractAnonCall(inputs, _, _, _) => expanded(inputs@),
    };
    if listed is Ok {
        let ins = listed->Ok_0;
        sim_gathered::<B>(read, b.backend, p.scope, b.scope, ins, 0, none, none);
        let (sp, scope_p, rp) = gathered::<PlaintextBackend>(p.backend, p.scope, ins, 0, none);
        let (sb, scope_b, rb) = gathered::<B>(b.backend, b.scope, ins, 0, none);
        let p1 = Machine { backend: sp, scope: scope_p, ..p };
        let b1 = Machine { backend: sb, scope: scope_b, ..b };
        match branch {
            CaseInvoke::AbstractGateCall(name, inputs) => {
                let f = known(env.functions, name@);
                lemma_known(env.functions, name@);
                if f is Some && depth > 0 && rb is Ok {
                    if rp is Ok {
                        sim_function::<B>(
                            read,
                            f->Some_0,
                            outputs,
                            ins,
                            env,
                            Some(xp),
                            Some(xb),
                            (depth - 1) as nat,
                            p1,
                            b1,
                        );
                    } else {
                        keeps_function::<B>(
                            read.bad,
                            f->Some_0,
                            outputs,
                            ins,
                            env,
                            Some(xb),
                            (depth - 1) as nat,
                            b1,
                        );
                    }
                }
            },
            CaseInvoke::AbstractAnonCall(inputs, _, _, subcircuit) => {
                if rb is Ok {
                    if rp is Ok {
                        sim_subcircuit::<B>(
                            read,
                            subcircuit@,
                            outputs,
                            ins,
                            env,
                            Some(xp),
                            Some(xb),
                            depth,
                            p1,
                            b1,
                        );
                    } else {
                        keeps_subcircuit::<B>(
                            read.bad,
                            subcircuit@,
                            outputs,
                            ins,
                            env,
                            Some(xb),
                            depth,
                            b1,
                        );
                    }
                }
            },
        }
    }
}

/// Whether the branches of a switch have come to what they do in plaintext.
spec fn same_cases(
    read: Reading,
    s: BackendState,
    p: (Machine, Result<Branches, Text>),
    b: (Machine, Result<Branches, Text>),
) -> bool {
    match b.1 {
        Err(t) => p.1 is Err || (read.gave_up)(t),
        Ok(done_b) => match p.1 {
            Ok(done_p) => {
                &&& same_machine(read, p.0, b.0)
                &&& lasting(read, s, b.0.backend)
                &&& same_branches(read, b.0.backend, done_p, done_b)
            },
            Err(_) => (read.bad)(b.0.backend),
        },
    }
}

proof fn sim_cases<B: ZKBackend>(
    read: Reading,
    condition: u64,
    outputs: Seq<u64>,
    cases: Seq<Vec<u8>>,
    branches: Seq<CaseInvoke>,
    k: nat,
    instances: Seq<nat>,
    witnesses: Seq<nat>,
    env: Env,
    wp: Option<nat>,
    wb: Option<nat>,
    depth: nat,
    p: Machine,
    b: Machine,
    done_p: Branches,
    done_b: Branches,
)
    requires
        simulates::<B>(read),
        same_machine(read, p, b),
        same_weight(read, b.backend, wp, wb),
        same_branches(read, b.backend, done_p, done_b),
        permitted_env(read, env),
        stocked(read, instances),
        stocked(read, witnesses),
        read.all || (spoken_values(read.dialect, cases) && spoken_branches(
            read.dialect,
            branches,
        )),
    ensures
        same_cases(
            read,
            b.backend,
            run_cases::<PlaintextBackend>(
                condition,
                outputs,
                cases,
                branches,
                k,
                instances,
                witnesses,
                env,
                wp,
                depth,
                p,
                done_p,
            ),
            run_cases::<B>(
                condition,
                outputs,
                cases,
                branches,
                k,
                instances,
                witnesses,
                env,
                wb,
                depth,
                b,
                done_b,
            ),
        ),
    decreases depth, branches, branches.len() - k,
{
    assert(p.scope.contains_key(condition) == b.scope.contains_key(condition));
    if k < cases.len() && k < branches.len() && b.scope.contains_key(condition) {
        let case = cases[k as int]@;
        let y = p.scope[condition];
        let c = b.scope[condition];
        assert((read.value)(b.backend, c) == Some(y));
        sim_weight::<B>(read, b.backend, env, wp, wb, case, y, c);
        let (sp, own_p) = nested_weight::<PlaintextBackend>(p.backend, env, wp, case, y);
        let (sb, own_b) = nested_weight::<B>(b.backend, env, wb, case, c);
        if own_b is Ok {
            let branch = branches[k as int];
            let xb = own_b->Ok_0;
            let b1 = Machine { backend: sb, instances, witnesses, ..b };
            let (b2, rb) = run_branch::<B>(branch, outputs, env, xb, depth, b1);
            let b3 = Machine { backend: b2.backend, iterators: b2.iterators, ..b };
            let more_b = (done_b.0.push(b2.scope), done_b.1.push(xb));
            if own_p is Ok {
                let xp = own_p->Ok_0;
                let p1 = Machine { backend: sp, instances, witnesses, ..p };
                sim_branch::<B>(read, branch, outputs, env, xp, xb, depth, p1, b1);
                let (p2, rp) = run_branch::<PlaintextBackend>(branch, outputs, env, xp, depth, p1);
                let p3 = Machine { backend: p2.backend, iterators: p2.iterators, ..p };
                let more_p = (done_p.0.push(p2.scope), done_p.1.push(xp));
                if rb is Ok {
                    if rp is Ok {
                        lemma_same_later(read, b.backend, b2.backend, p.scope, b.scope);
                        lemma_branches_later(read, b.backend, b2.backend, done_p, done_b);
                        assert((read.value)(b2.backend, xb) == Some(xp));
                        assert(same_branches(read, b2.backend, more_p, more_b));
                        sim_cases::<B>(
                            read,
                            condition,
                            outputs,
                            cases,
                            branches,
                            k + 1,
                            instances,
                            witnesses,
                            env,
                            wp,
                            wb,
                            depth,
                            p3,
                            b3,
                            more_p,
                            more_b,
                        );
                    } else {
                        keeps_cases::<B>(
                            read.bad,
                            condition,
                            outputs,
                            cases,
                            branches,
                            k + 1,
                            instances,
                            witnesses,
                            env,
                            wb,
                            depth,
                            b3,
                            more_b,
                        );
                    }
                }
            } else {
                keeps_branch::<B>(read.bad, branch, outputs, env, xb, depth, b1);
                if rb is Ok {
                    keeps_cases::<B>(
                        read.bad,
                        condition,
                        outputs,
                        cases,
                        branches,
                        k + 1,
                        instances,
                        witnesses,
                        env,
                        wb,
                        depth,
                        b3,
                        more_b,
                    );
                }
            }
        }
    }
}

proof fn sim_switch<B: ZKBackend>(
    read: Reading,
    condition: u64,
    outputs: Seq<WireListElement>,
    cases: Seq<Vec<u8>>,
    branches: Seq<CaseInvoke>,
    env: Env,
    wp: Option<nat>,
    wb: Option<nat>,
    depth: nat,
    p: Machine,
    b: Machine,
)
    requires
        simulates::<B>(read),
        same_machine(read, p, b),
        same_weight(read, b.backend, wp, wb),
        permitted_env(read, env),
        read.all || (spoken_values(read.dialect, cases) && spoken_branches(
            read.dialect,
            branches,
        )),
    ensures
        same_outcome(
            read,
            b.backend,
            run_switch::<PlaintextBackend>(condition, outputs, cases, branches, env, wp, depth, p),
            run_switch::<B>(condition, outputs, cases, branches, env, wb, depth, b),
        ),
    decreases depth, branches, branches.len() + 1,
{
    let most = most_counts(env.functions, branches, 0, 0, 0);
    if most is Ok && expanded(outputs) is Ok {
        let i = smaller(b.instances.len(), most->Ok_0.0) as int;
        let w = smaller(b.witnesses.len(), most->Ok_0.1) as int;
        let p1 = Machine { instances: p.instances.skip(i), witnesses: p.witnesses.skip(w), ..p };
        let b1 = Machine { instances: b.instances.skip(i), witnesses: b.witnesses.skip(w), ..b };
        let instances = b.instances.take(i);
        let witnesses = b.witnesses.take(w);
        let outs = expanded(outputs)->Ok_0;
        let none: Branches = (Seq::empty(), Seq::empty());
        sim_cases::<B>(
            read,
            condition,
            outs,
            cases,
            branches,
            0,
            instances,
            witnesses,
            env,
            wp,
            wb,
            depth,
            p1,
            b1,
            none,
            none,
        );
        let (p2, rp) = run_cases::<PlaintextBackend>(
            condition,
            outs,
            cases,
            branches,
            0,
            instances,
            witnesses,
            env,
            wp,
            depth,
            p1,
            none,
        );
        let (b2, rb) = run_cases::<B>(
            condition,
            outs,
            cases,
            branches,
            0,
            instances,
            witnesses,
            env,
            wb,
            depth,
            b1,
            none,
        );
        if rb is Ok {
            if rp is Ok {
                sim_merged::<B>(read, p2, b2, env.is_boolean, rp->Ok_0, rb->Ok_0, outs, 0);
            } else {
                keeps_merged::<B>(
                    read.bad,
                    b2,
                    env.is_boolean,
                    rb->Ok_0.0,
                    rb->Ok_0.1,
                    outs,
                    0,
                );
            }
        }
    }
}

/// A gate does what it does in plaintext.
proof fn sim_gate<B: ZKBackend>(
    read: Reading,
    gate: Gate,
    env: Env,
    wp: Option<nat>,
    wb: Option<nat>,
    depth: nat,
    p: Machine,
    b: Machine,
)
    requires
        simulates::<B>(read),
        same_machine(read, p, b),
        same_weight(read, b.backend, wp, wb),
        permitted_env(read, env),
        read.all || spoken(read.dialect, gate),
    ensures
        same_outcome(
            read,
            b.backend,
            run_gate::<PlaintextBackend>(gate, env, wp, depth, p),
            run_gate::<B>(gate, env, wb, depth, b),
        ),
    decreases depth, gate, 0int,
{
    match gate {
        Gate::Call(name, outputs, inputs) => {
            let f = known(env.functions, name@);
            lemma_known(env.functions, name@);
            if f is Some && expanded(outputs@) is Ok && expanded(inputs@) is Ok && depth > 0 {
                sim_function::<B>(
                    read,
                    f->Some_0,
                    expanded(outputs@)->Ok_0,
                    expanded(inputs@)->Ok_0,
                    env,
                    wp,
                    wb,
                    (depth - 1) as nat,
                    p,
                    b,
                );
            }
        },
        Gate::AnonCall(outputs, inputs, _, _, subcircuit) => {
            if expanded(outputs@) is Ok && expanded(inputs@) is Ok {
                sim_subcircuit::<B>(
                    read,
                    subcircuit@,
                    expanded(outputs@)->Ok_0,
                    expanded(inputs@)->Ok_0,
                    env,
                    wp,
                    wb,
                    depth,
                    p,
                    b,
                );
            }
        },
        Gate::For(name, first, last, _, body) => {
            sim_for::<B>(
                read,
                name@,
                first as int,
                last as int,
                body,
                env,
                wp,
                wb,
                depth,
                p,
                b,
            );
        },
        Gate::Switch(condition, outputs, cases, branches) => {
            sim_switch::<B>(
                read,
                condition,
                outputs@,
                cases@,
                branches@,
                env,
                wp,
                wb,
                depth,
                p,
                b,
            );
        },
        _ => {
            sim_elementary::<B>(read, gate, env, wp, wb, depth, p, b);
        },
    }
}

/// Whether all relations among messages are over the prime field of a given
/// characteristic.
pub open spec fn same_field(messages: Seq<Message>, modulus: nat) -> bool {
    forall|i: int|
        0 <= i < messages.len() ==> (#[trigger] messages[i] matches Message::Relation(r) ==> {
            &&& le_value(r.header.field_characteristic@) == modulus
            &&& r.header.field_degree == 1
        })
}

/// Whether messages ask for nothing that is not in a dialect, and hold no other values.
pub open spec fn spoken_messages(d: Dialect, messages: Seq<Message>) -> bool {
    forall|i: int| 0 <= i < messages.len() ==> spoken_message(d, #[trigger] messages[i])
}

pub open spec fn spoken_message(d: Dialect, message: Message) -> bool {
    match message {
        Message::Instance(instance) => spoken_values(d, instance.common_inputs@),
        Message::Witness(witness) => spoken_values(d, witness.short_witness@),
        Message::Relation(r) => {
            &&& d.boolean || r.gate_mask & BOOL != BOOL
            &&& all_spoken(d, r.gates@)
            &&& spoken_functions(d, all_defined(r.functions@))
        },
    }
}

/// Whether a backend, when it starts and later, accepts the field.
pub open spec fn takes_field<B: ZKBackend>(read: Reading, start: BackendState) -> bool {
    forall|s: BackendState, modulus: Seq<u8>, is_boolean: bool|
        ((read.good)(s) || s == start) && le_value(modulus) == read.modulus ==> {
            let t = #[trigger] B::after(s, Request::SetField { modulus, degree: 1, is_boolean });
            &&& B::answer(s, Request::SetField { modulus, degree: 1, is_boolean }) is Ok
            &&& (read.good)(t)
            &&& (read.good)(s) ==> lasting(read, s, t)
        }
}

/// Whether an evaluator has come to the same as in plaintext.
pub open spec fn same_evaluator(
    read: Reading,
    start: BackendState,
    p: (EvaluatorV, BackendState),
    b: (EvaluatorV, BackendState),
) -> bool {
    &&& same_scope(read, b.1, p.0.scope, b.0.scope)
    &&& (EvaluatorV { scope: b.0.scope, ..p.0 }) == b.0
    &&& p.0.error is None
    &&& stocked(read, b.0.instances)
    &&& stocked(read, b.0.witnesses)
    &&& (p.1 == plain_state(read.modulus) && (read.good)(b.1)) || (b.1 == start
        && b.0.scope.dom() == Set::<u64>::empty())
}

/// Whether evaluating messages has come to the same as in plaintext, or the refusal
/// in plaintext is noted, or the backend has refused as well or given up.
pub open spec fn same_verdict(
    read: Reading,
    start: BackendState,
    p: (EvaluatorV, BackendState),
    b: (EvaluatorV, BackendState),
) -> bool {
    match b.0.error {
        Some(t) => p.0.error is Some || (read.gave_up)(t),
        None => if p.0.error is None {
            same_evaluator(read, start, p, b)
        } else {
            (read.bad)(b.1)
        },
    }
}

proof fn sim_enqueued<B: ZKBackend>(
    read: Reading,
    queue: Seq<nat>,
    values: Seq<Vec<u8>>,
    k: nat,
)
    requires
        forall|bytes: Seq<u8>| #[trigger] B::parse(bytes) == Ok::<nat, Text>(le_value(bytes)),
        stocked(read, queue),
        read.all || spoken_values(read.dialect, values),
    ensures
        enqueued::<B>(queue, values, k) == enqueued::<PlaintextBackend>(queue, values, k),
        enqueued::<B>(queue, values, k).1 is Ok,
        stocked(read, enqueued::<B>(queue, values, k).0),
    decreases values.len() - k,
{
    if k < values.len() {
        let x = le_value(values[k as int]@);
        assert(B::parse(values[k as int]@) == Ok::<nat, Text>(x));
        assert(stocked(read, queue.push(x)));
        sim_enqueued::<B>(read, queue.push(x), values, k + 1);
    }
}

proof fn sim_relation<B: ZKBackend>(
    read: Reading,
    start: BackendState,
    p: (EvaluatorV, BackendState),
    b: (EvaluatorV, BackendState),
    relation: Relation,
)
    requires
        simulates::<B>(read),
        takes_field::<B>(read, start),
        same_evaluator(read, start, p, b),
        same_field(seq![Message::Relation(relation)], read.modulus),
        read.all || spoken_message(read.dialect, Message::Relation(relation)),
        read.all || spoken_functions(read.dialect, b.0.functions),
    ensures
        same_verdict(
            read,
            start,
            with_message::<PlaintextBackend>(p.0, p.1, Message::Relation(relation)),
            with_message::<B>(b.0, b.1, Message::Relation(relation)),
        ),
        ({
            let b1 = with_message::<B>(b.0, b.1, Message::Relation(relation));
            b1.0.error is None ==> read.all || spoken_functions(read.dialect, b1.0.functions)
        }),
{
    let message = Message::Relation(relation);
    assert(seq![message][0] == message);
    let modulus = relation.header.field_characteristic@;
    let is_boolean = relation.gate_mask & BOOL == BOOL;
    let request = Request::SetField {
        modulus,
        degree: relation.header.field_degree,
        is_boolean,
    };
    let t = B::after(b.1, request);
    assert(t == B::after(b.1, Request::SetField { modulus, degree: 1, is_boolean }));
    let functions = b.0.functions + all_defined(relation.functions@);
    let env = Env { functions, modulus: le_value(modulus), is_boolean };
    let mp = Machine {
        backend: plain_state(read.modulus),
        scope: p.0.scope,
        iterators: Map::empty(),
        instances: b.0.instances,
        witnesses: b.0.witnesses,
    };
    let mb = Machine { backend: t, scope: b.0.scope, ..mp };
    assert(same_scope(read, t, p.0.scope, b.0.scope)) by {
        if (read.good)(b.1) {
            lemma_same_later(read, b.1, t, p.0.scope, b.0.scope);
        } else {
            assert forall|k: u64| b.0.scope.contains_key(k) implies (read.value)(
                t,
                #[trigger] b.0.scope[k],
            ) == Some(p.0.scope[k]) by {
                assert(b.0.scope.dom().contains(k));
            }
        }
    }
    if !read.all {
        assert forall|i: int| 0 <= i < functions.len() implies all_spoken(
            read.dialect,
            (#[trigger] functions[i]).body,
        ) by {
            if i >= b.0.functions.len() {
                let j = i - b.0.functions.len();
                assert(functions[i] == all_defined(relation.functions@)[j]);
            }
        }
    }
    sim_gates::<B>(read, relation.gates@, 0, env, None, None, MAX_NESTING as nat, mp, mb);
}

/// Evaluating messages with a backend comes to the same as in plaintext.
pub proof fn sim_messages<B: ZKBackend>(
    read: Reading,
    start: BackendState,
    p: (EvaluatorV, BackendState),
    b: (EvaluatorV, BackendState),
    messages: Seq<Message>,
    k: nat,
)
    requires
        simulates::<B>(read),
        takes_field::<B>(read, start),
        same_evaluator(read, start, p, b),
        same_field(messages, read.modulus),
        read.all || spoken_messages(read.dialect, messages),
        read.all || spoken_functions(read.dialect, b.0.functions),
    ensures
        same_verdict(
            read,
            start,
            with_messages::<PlaintextBackend>(p.0, p.1, messages, k),
            with_messages::<B>(b.0, b.1, messages, k),
        ),
    decreases messages.len() - k,
{
    if k < messages.len() {
        let message = messages[k as int];
        assert(read.all || spoken_message(read.dialect, message));
        match message {
            Message::Instance(i) => {
                sim_enqueued::<B>(read, b.0.instances, i.common_inputs@, 0);
            },
            Message::Witness(w) => {
                sim_enqueued::<B>(read, b.0.witnesses, w.short_witness@, 0);
            },
            Message::Relation(relation) => {
                sim_relation::<B>(read, start, p, b, relation);
            },
        }
        let p1 = with_message::<PlaintextBackend>(p.0, p.1, message);
        let b1 = with_message::<B>(b.0, b.1, message);
        if b1.0.error is Some {
            refused_once::<B>(b1.0, b1.1, messages, k + 1);
            if p1.0.error is Some {
                refused_once::<PlaintextBackend>(p1.0, p1.1, messages, k + 1);
            }
        } else if p1.0.error is Some {
            refused_once::<PlaintextBackend>(p1.0, p1.1, messages, k + 1);
            keeps_messages::<B>(read.bad, b1.0, b1.1, messages, k + 1);
        } else {
            sim_messages::<B>(read, start, p1, b1, messages, k + 1);
        }
    }
}

} // verus!
