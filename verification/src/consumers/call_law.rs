//! What calls, loops and branches start from and leave, in terms of the wires of the caller.

use crate::consumers::backend::{BackendState, Request, ZKBackend};
use crate::consumers::invariance::keeps_gates;
use crate::consumers::plaintext::{plain_state, PlaintextBackend};
use crate::consumers::scope_law::switch_takes_most;
use crate::consumers::selection_law::gates_keep_field;
use crate::consumers::semantics::{
    ask, branch_counts, gathered, known, larger, loaded, look, most_counts, run_branch,
    run_for, run_function, run_gate, run_gates, run_subcircuit, run_turn, smaller, store, unloaded, Env,
    FunctionV, Machine, Scope, Text,
};
use crate::structs::function::{CaseInvoke, ForLoopBody};
use crate::structs::gate::Gate;
use crate::structs::iterators::evaluated;
use crate::structs::wire::expanded;
use vstd::prelude::*;

verus! {

/// How many numbers there are for wires.
pub open spec fn wire_numbers() -> int {
    u64::MAX + 1
}

/// Whether a wire is what the backend answers, in some state, when asked for a copy of another.
pub open spec fn is_copy<B: ZKBackend>(w: nat, c: nat) -> bool {
    exists|s: BackendState| #[trigger] B::answer(s, Request::Copy(w)) == Ok::<nat, Text>(c)
}

/// When a subcircuit with `n` outputs starts, the wire `n + i` of its own scope is a copy of
/// the `i`-th input wire of the call, and no other wire has a value.
pub proof fn inputs_follow_outputs<B: ZKBackend>(
    s: BackendState,
    scope: Scope,
    inputs: Seq<u64>,
    n: nat,
)
    requires
        n + inputs.len() <= wire_numbers(),
        loaded::<B>(s, scope, inputs, n, 0, Map::empty()).2 is Ok,
    ensures
        ({
            let inner = loaded::<B>(s, scope, inputs, n, 0, Map::empty()).1;
            &&& forall|id: u64| #[trigger] inner.contains_key(id) <==> n <= id < n + inputs.len()
            &&& forall|i: int|
                0 <= i < inputs.len() ==> scope.contains_key(#[trigger] inputs[i]) && is_copy::<B>(
                    scope[inputs[i]],
                    inner[(n + i) as u64],
                )
        }),
{
    lemma_loaded::<B>(s, scope, inputs, n, 0, Map::empty());
}

/// Whether the first `k` inputs of a call, and no other wires, are in a scope.
spec fn loaded_so_far<B: ZKBackend>(
    scope: Scope,
    inputs: Seq<u64>,
    n: nat,
    k: nat,
    inner: Scope,
) -> bool {
    &&& forall|id: u64| #[trigger] inner.contains_key(id) <==> n <= id < n + k
    &&& forall|i: int|
        0 <= i < k ==> scope.contains_key(#[trigger] inputs[i]) && is_copy::<B>(
            scope[inputs[i]],
            inner[(n + i) as u64],
        )
}

proof fn lemma_loaded<B: ZKBackend>(
    s: BackendState,
    scope: Scope,
    inputs: Seq<u64>,
    n: nat,
    k: nat,
    inner: Scope,
)
    requires
        n + inputs.len() <= wire_numbers(),
        k <= inputs.len(),
        loaded_so_far::<B>(scope, inputs, n, k, inner),
        loaded::<B>(s, scope, inputs, n, k, inner).2 is Ok,
    ensures
        loaded_so_far::<B>(
            scope,
            inputs,
            n,
            inputs.len(),
            loaded::<B>(s, scope, inputs, n, k, inner).1,
        ),
    decreases inputs.len() - k,
{
    if k < inputs.len() {
        let w = look(scope, inputs[k as int])->Ok_0;
        let (s1, copy) = ask::<B>(s, Request::Copy(w));
        let c = copy->Ok_0;
        let id = ((k + n) % 0x1_0000_0000_0000_0000) as u64;
        assert(id == n + k);
        let next = inner.insert(id, c);
        assert(B::answer(s, Request::Copy(w)) == Ok::<nat, Text>(c));
        assert(loaded_so_far::<B>(scope, inputs, n, k + 1, next)) by {
            assert forall|i: int| 0 <= i < k + 1 implies scope.contains_key(#[trigger] inputs[i])
                && is_copy::<B>(scope[inputs[i]], next[(n + i) as u64]) by {
                if i < k {
                    assert((n + i) as u64 != id);
                } else {
                    assert((n + i) as u64 == id);
                }
            }
        }
        lemma_loaded::<B>(s1, scope, inputs, n, k + 1, next);
    }
}

/// The scope that a subcircuit with `n` outputs starts from, in plaintext.
pub open spec fn starting_scope(scope: Scope, inputs: Seq<u64>, n: nat) -> Scope {
    Map::new(
        |id: u64| n <= id < n + inputs.len(),
        |id: u64| scope[inputs[id - n]],
    )
}

/// Whether each of several wires has a value.
pub open spec fn all_valued(scope: Scope, ids: Seq<u64>) -> bool {
    forall|i: int| 0 <= i < ids.len() ==> scope.contains_key(#[trigger] ids[i])
}

/// In plaintext a subcircuit can start just where every input wire of the call has a value,
/// and then starts from these values, behind the numbers of its outputs.
pub proof fn plain_inputs(p: nat, scope: Scope, inputs: Seq<u64>, n: nat)
    requires
        n + inputs.len() <= wire_numbers(),
    ensures
        ({
            let (s, inner, r) = loaded::<PlaintextBackend>(
                plain_state(p),
                scope,
                inputs,
                n,
                0,
                Map::empty(),
            );
            &&& s == plain_state(p)
            &&& r is Ok <==> all_valued(scope, inputs)
            &&& r is Ok ==> inner == starting_scope(scope, inputs, n)
        }),
{
    lemma_plain_loaded(p, scope, inputs, n, 0, Map::empty());
    let (s, inner, r) = loaded::<PlaintextBackend>(
        plain_state(p),
        scope,
        inputs,
        n,
        0,
        Map::empty(),
    );
    if r is Ok {
        lemma_loaded::<PlaintextBackend>(plain_state(p), scope, inputs, n, 0, Map::empty());
        let expected = starting_scope(scope, inputs, n);
        assert forall|id: u64| n <= id < n + inputs.len() implies #[trigger] inner[id]
            == expected[id] by {
            let i = id - n;
            assert(scope.contains_key(inputs[i]));
            assert((n + i) as u64 == id);
            assert(is_copy::<PlaintextBackend>(scope[inputs[i]], inner[(n + i) as u64]));
        }
        assert(inner =~= expected);
    }
}

proof fn lemma_plain_loaded(
    p: nat,
    scope: Scope,
    inputs: Seq<u64>,
    n: nat,
    k: nat,
    inner: Scope,
)
    requires
        n + inputs.len() <= wire_numbers(),
        k <= inputs.len(),
        forall|id: u64| #[trigger] inner.contains_key(id) <==> n <= id < n + k,
    ensures
        ({
            let (s, later, r) = loaded::<PlaintextBackend>(
                plain_state(p),
                scope,
                inputs,
                n,
                k,
                inner,
            );
            &&& s == plain_state(p)
            &&& r is Ok <==> forall|i: int|
                k <= i < inputs.len() ==> scope.contains_key(#[trigger] inputs[i])
        }),
    decreases inputs.len() - k,
{
    if k < inputs.len() && scope.contains_key(inputs[k as int]) {
        let id = ((k + n) % 0x1_0000_0000_0000_0000) as u64;
        assert(id == n + k);
        let next = inner.insert(id, scope[inputs[k as int]]);
        lemma_plain_loaded(p, scope, inputs, n, k + 1, next);
    }
}

/// Whether several wires are distinct and none of them has a value.
pub open spec fn all_free(scope: Scope, ids: Seq<u64>) -> bool {
    ids.no_duplicates() && forall|i: int|
        0 <= i < ids.len() ==> !scope.contains_key(#[trigger] ids[i])
}

/// Whether the wires from zero up to `n` have a value.
pub open spec fn outputs_valued(scope: Scope, n: nat) -> bool {
    forall|i: int| 0 <= i < n ==> scope.contains_key(#[trigger] (i as u64))
}

/// Whether a wire is none of several ones from the `k`-th on.
spec fn none_is(ids: Seq<u64>, k: nat, id: u64) -> bool {
    forall|i: int| k <= i < ids.len() ==> #[trigger] ids[i] != id
}

proof fn lemma_plain_unloaded(p: nat, m: Machine, inner: Scope, outputs: Seq<u64>, k: nat)
    requires
        m.backend == plain_state(p),
        k <= outputs.len() <= wire_numbers(),
    ensures
        ({
            let (later, r) = unloaded::<PlaintextBackend>(m, inner, outputs, k);
            &&& r is Ok <==> {
                &&& forall|i: int| k <= i < outputs.len() ==> inner.contains_key(#[trigger] (i as u64))
                &&& forall|i: int| k <= i < outputs.len() ==> !m.scope.contains_key(
                    #[trigger] outputs[i],
                )
                &&& forall|i: int, j: int|
                    k <= i < j < outputs.len() ==> #[trigger] outputs[i] != #[trigger] outputs[j]
            }
            &&& r is Ok ==> {
                &&& later == (Machine { scope: later.scope, ..m })
                &&& forall|i: int|
                    k <= i < outputs.len() ==> later.scope.contains_key(#[trigger] outputs[i])
                        && later.scope[outputs[i]] == inner[i as u64]
                &&& forall|id: u64| #[trigger]
                    none_is(outputs, k, id) ==> (later.scope.contains_key(id)
                        <==> m.scope.contains_key(id)) && (m.scope.contains_key(id)
                        ==> later.scope[id] == m.scope[id])
            }
        }),
    decreases outputs.len() - k,
{
    if k < outputs.len() && inner.contains_key(k as u64) {
        let w = inner[k as u64];
        let out = outputs[k as int];
        let (m1, r) = store(m, ask::<PlaintextBackend>(m.backend, Request::Copy(w)), out);
        if r is Ok {
            lemma_plain_unloaded(p, m1, inner, outputs, k + 1);
            let (later, r2) = unloaded::<PlaintextBackend>(m1, inner, outputs, k + 1);
            if r2 is Ok {
                assert forall|i: int| k < i < outputs.len() implies #[trigger] outputs[i]
                    != out by {
                    assert(!m1.scope.contains_key(outputs[i]));
                }
                assert(none_is(outputs, k + 1, out));
                assert(later.scope.contains_key(out) && later.scope[out] == w);
                assert forall|id: u64| #[trigger] none_is(outputs, k, id) implies none_is(
                    outputs,
                    k + 1,
                    id,
                ) && id != out by {
                    assert(outputs[k as int] == out);
                }
            }
        } else {
            assert(m.scope.contains_key(outputs[k as int]));
        }
    }
}

/// The state that the gates of a subcircuit start from, in plaintext.
pub open spec fn entered(m: Machine, outputs: Seq<u64>, inputs: Seq<u64>) -> Machine {
    Machine { scope: starting_scope(m.scope, inputs, outputs.len()), ..m }
}

/// What a subcircuit does in plaintext. It succeeds just where every input wire has a value,
/// its gates succeed in a scope that holds the inputs alone, behind the numbers of the
/// outputs, these gates give every output a value, and the output wires of the caller are
/// distinct and have none. Each of them then has the value of the output at its place, and
/// all other wires of the caller are as they were.
pub proof fn subcircuit_in_plaintext(
    p: nat,
    gates: Seq<Gate>,
    outputs: Seq<u64>,
    inputs: Seq<u64>,
    env: Env,
    weight: Option<nat>,
    depth: nat,
    m: Machine,
)
    requires
        m.backend == plain_state(p),
        outputs.len() + inputs.len() <= wire_numbers(),
    ensures
        ({
            let (later, r) = run_subcircuit::<PlaintextBackend>(
                gates,
                outputs,
                inputs,
                env,
                weight,
                depth,
                m,
            );
            let (end, inner) = run_gates::<PlaintextBackend>(
                gates,
                0,
                env,
                weight,
                depth,
                entered(m, outputs, inputs),
            );
            &&& r is Ok <==> all_valued(m.scope, inputs) && inner is Ok && outputs_valued(
                end.scope,
                outputs.len(),
            ) && all_free(m.scope, outputs)
            &&& r is Ok ==> {
                &&& later == (Machine { scope: later.scope, ..end })
                &&& forall|i: int|
                    0 <= i < outputs.len() ==> later.scope.contains_key(#[trigger] outputs[i])
                        && later.scope[outputs[i]] == end.scope[i as u64]
                &&& forall|id: u64|
                    !outputs.contains(id) ==> (#[trigger] later.scope.contains_key(id)
                        <==> m.scope.contains_key(id)) && (m.scope.contains_key(id)
                        ==> later.scope[id] == m.scope[id])
            }
        }),
{
    plain_inputs(p, m.scope, inputs, outputs.len());
    let start = entered(m, outputs, inputs);
    if all_valued(m.scope, inputs) {
        let loaded_scope = loaded::<PlaintextBackend>(
            m.backend,
            m.scope,
            inputs,
            outputs.len(),
            0,
            Map::empty(),
        ).1;
        assert(Machine { backend: plain_state(p), scope: loaded_scope, ..m } == start);
        gates_keep_field(p);
        keeps_gates::<PlaintextBackend>(
            |s: BackendState| s == plain_state(p),
            gates,
            0,
            env,
            weight,
            depth,
            start,
        );
        let (end, inner) = run_gates::<PlaintextBackend>(gates, 0, env, weight, depth, start);
        if inner is Ok {
            let back = Machine { scope: m.scope, ..end };
            lemma_plain_unloaded(p, back, end.scope, outputs, 0);
            let (later, r) = unloaded::<PlaintextBackend>(back, end.scope, outputs, 0);
            if r is Ok {
                assert(all_free(m.scope, outputs)) by {
                    assert forall|i: int, j: int|
                        0 <= i < outputs.len() && 0 <= j < outputs.len() && i
                            != j implies outputs[i] != outputs[j] by {
                        if i < j {
                            assert(outputs[i] != outputs[j]);
                        } else {
                            assert(outputs[j] != outputs[i]);
                        }
                    }
                }
                assert forall|id: u64| !outputs.contains(id) implies (
                #[trigger] later.scope.contains_key(id) <==> m.scope.contains_key(id)) && (
                m.scope.contains_key(id) ==> later.scope[id] == m.scope[id]) by {
                    assert(none_is(outputs, 0, id));
                }
            }
        }
    }
}

/// A call of a function is a call of its gates without iterators: it gives the same where no
/// iterator is running, for any backend.
pub proof fn function_is_its_body<B: ZKBackend>(
    f: FunctionV,
    outputs: Seq<u64>,
    inputs: Seq<u64>,
    env: Env,
    weight: Option<nat>,
    depth: nat,
    m: Machine,
)
    requires
        m.iterators == Map::<Text, u64>::empty(),
    ensures
        ({
            let named = run_function::<B>(f, outputs, inputs, env, weight, depth, m);
            let unnamed = run_subcircuit::<B>(f.body, outputs, inputs, env, weight, depth, m);
            &&& named.1 == unnamed.1
            &&& named.0.scope == unnamed.0.scope
            &&& named.0.backend == unnamed.0.backend
            &&& named.0.instances == unnamed.0.instances
            &&& named.0.witnesses == unnamed.0.witnesses
        }),
{
    assert(Machine { iterators: Map::empty(), ..m } == m);
}

/// A function is found by its name, the latest one where several have it, and none is found
/// just where none has it.
pub proof fn latest_is_known(functions: Seq<FunctionV>, name: Text)
    ensures
        match known(functions, name) {
            Some(f) => exists|i: int|
                0 <= i < functions.len() && #[trigger] functions[i] == f && f.name == name && (
                forall|j: int| i < j < functions.len() ==> (#[trigger] functions[j]).name != name),
            None => forall|i: int| 0 <= i < functions.len() ==> (#[trigger] functions[i]).name != name,
        },
    decreases functions.len(),
{
    if functions.len() > 0 {
        let n = functions.len() - 1;
        if functions.last().name == name {
            assert(functions[n] == functions.last());
        } else {
            let before = functions.drop_last();
            latest_is_known(before, name);
            if known(before, name) is Some {
                let f = known(before, name)->Some_0;
                let i = choose|i: int|
                    0 <= i < before.len() && #[trigger] before[i] == f && f.name == name && (
                    forall|j: int| i < j < before.len() ==> (#[trigger] before[j]).name != name);
                assert(functions[i] == f);
                assert forall|j: int| i < j < functions.len() implies (
                #[trigger] functions[j]).name != name by {
                    if j < n {
                        assert(before[j].name != name);
                    }
                }
            } else {
                assert forall|j: int| 0 <= j < functions.len() implies (
                #[trigger] functions[j]).name != name by {
                    if j < n {
                        assert(before[j].name != name);
                    }
                }
            }
        }
    }
}

/// A function that is called must be known by its name, and be given as many wires as it has.
pub proof fn calls_are_checked<B: ZKBackend>(
    name: String,
    gate: Gate,
    env: Env,
    weight: Option<nat>,
    depth: nat,
    m: Machine,
)
    requires
        gate matches Gate::Call(n, _, _) && n == name,
        run_gate::<B>(gate, env, weight, depth, m).1 is Ok,
    ensures
        known(env.functions, name@) is Some,
        gate matches Gate::Call(_, outs, ins) ==> {
            let f = known(env.functions, name@)->Some_0;
            &&& expanded(outs@) is Ok && expanded(outs@)->Ok_0.len() == f.output_count
            &&& expanded(ins@) is Ok && expanded(ins@)->Ok_0.len() == f.input_count
            &&& depth > 0
        },
{
}

/// A switch sets aside as many instance values as are declared for the branch with most of
/// them, and as many witness values as are declared for the branch with most of those: no
/// branch has more, and some branch has just as many, unless there is no branch.
pub proof fn most_is_enough_and_needed(functions: Seq<FunctionV>, branches: Seq<CaseInvoke>)
    ensures
        match most_counts(functions, branches, 0, 0, 0) {
            Ok((instances, witnesses)) => {
                &&& forall|i: int|
                    0 <= i < branches.len() ==> {
                        let own = #[trigger] branch_counts(functions, branches[i]);
                        own is Ok && own->Ok_0.0 <= instances && own->Ok_0.1 <= witnesses
                    }
                &&& instances == 0 || exists|i: int|
                    0 <= i < branches.len() && (#[trigger] branch_counts(
                        functions,
                        branches[i],
                    ))->Ok_0.0 == instances
                &&& witnesses == 0 || exists|i: int|
                    0 <= i < branches.len() && (#[trigger] branch_counts(
                        functions,
                        branches[i],
                    ))->Ok_0.1 == witnesses
            },
            Err(_) => exists|i: int|
                0 <= i < branches.len() && (#[trigger] branch_counts(functions, branches[i])) is Err,
        },
{
    lemma_most(functions, branches, 0, 0, 0);
}

proof fn lemma_most(
    functions: Seq<FunctionV>,
    branches: Seq<CaseInvoke>,
    k: nat,
    instances: nat,
    witnesses: nat,
)
    requires
        k <= branches.len(),
    ensures
        match most_counts(functions, branches, k, instances, witnesses) {
            Ok((most_i, most_w)) => {
                &&& instances <= most_i && witnesses <= most_w
                &&& forall|i: int|
                    k <= i < branches.len() ==> {
                        let own = #[trigger] branch_counts(functions, branches[i]);
                        own is Ok && own->Ok_0.0 <= most_i && own->Ok_0.1 <= most_w
                    }
                &&& most_i == instances || exists|i: int|
                    k <= i < branches.len() && (#[trigger] branch_counts(
                        functions,
                        branches[i],
                    ))->Ok_0.0 == most_i
                &&& most_w == witnesses || exists|i: int|
                    k <= i < branches.len() && (#[trigger] branch_counts(
                        functions,
                        branches[i],
                    ))->Ok_0.1 == most_w
            },
            Err(_) => exists|i: int|
                k <= i < branches.len() && (#[trigger] branch_counts(functions, branches[i])) is Err,
        },
    decreases branches.len() - k,
{
    if k < branches.len() {
        let own = branch_counts(functions, branches[k as int]);
        if own is Ok {
            let (i, w) = own->Ok_0;
            let next_i = larger(instances, i);
            let next_w = larger(witnesses, w);
            lemma_most(functions, branches, k + 1, next_i, next_w);
        }
    }
}

/// What is declared for a branch: its own numbers for gates without a name, else those of the
/// function that it calls.
pub proof fn counts_are_declared(functions: Seq<FunctionV>, branch: CaseInvoke)
    ensures
        branch matches CaseInvoke::AbstractAnonCall(_, instances, witnesses, _) ==> branch_counts(
            functions,
            branch,
        ) == Ok::<(nat, nat), Text>((instances as nat, witnesses as nat)),
        branch matches CaseInvoke::AbstractGateCall(name, _) ==> {
            &&& branch_counts(functions, branch) is Ok <==> known(functions, name@) is Some
            &&& branch_counts(functions, branch) is Ok ==> branch_counts(functions, branch)->Ok_0
                == (
                known(functions, name@)->Some_0.instance_nbr,
                known(functions, name@)->Some_0.witness_nbr,
            )
        },
{
}

/// The wires of a scope that are among several ones.
pub open spec fn scope_of(scope: Scope, ids: Seq<u64>) -> Scope {
    Map::new(|id: u64| ids.contains(id), |id: u64| scope[id])
}

/// In plaintext the inputs of a branch can be gathered just where each has a value, and then
/// they, and no other wires, keep their numbers and values.
pub proof fn plain_branch_inputs(p: nat, scope: Scope, inputs: Seq<u64>)
    ensures
        ({
            let (s, branch, r) = gathered::<PlaintextBackend>(
                plain_state(p),
                scope,
                inputs,
                0,
                Map::empty(),
            );
            &&& s == plain_state(p)
            &&& r is Ok <==> all_valued(scope, inputs)
            &&& r is Ok ==> branch == scope_of(scope, inputs)
        }),
{
    assert(inputs.take(0) =~= Seq::empty());
    assert(scope_of(scope, inputs.take(0)) =~= Map::empty());
    lemma_gathered(p, scope, inputs, 0, Map::empty());
}

proof fn lemma_gathered(p: nat, scope: Scope, inputs: Seq<u64>, k: nat, branch: Scope)
    requires
        k <= inputs.len(),
        branch == scope_of(scope, inputs.take(k as int)),
    ensures
        ({
            let (s, later, r) = gathered::<PlaintextBackend>(
                plain_state(p),
                scope,
                inputs,
                k,
                branch,
            );
            &&& s == plain_state(p)
            &&& r is Ok <==> forall|i: int|
                k <= i < inputs.len() ==> scope.contains_key(#[trigger] inputs[i])
            &&& r is Ok ==> later == scope_of(scope, inputs)
        }),
    decreases inputs.len() - k,
{
    if k >= inputs.len() {
        assert(inputs.take(k as int) =~= inputs);
    } else if scope.contains_key(inputs[k as int]) {
        let id = inputs[k as int];
        let next = branch.insert(id, scope[id]);
        let taken = inputs.take(k as int);
        let more = inputs.take(k as int + 1);
        assert forall|other: u64| more.contains(other) <==> other == id || taken.contains(
            other,
        ) by {
            if other == id {
                assert(more[k as int] == id);
            }
            if taken.contains(other) {
                let i = choose|i: int| 0 <= i < taken.len() && taken[i] == other;
                assert(more[i] == other);
            }
            if more.contains(other) && other != id {
                let i = choose|i: int| 0 <= i < more.len() && more[i] == other;
                assert(taken[i] == other);
            }
        }
        assert(next =~= scope_of(scope, more));
        lemma_gathered(p, scope, inputs, k + 1, next);
    }
}

/// A branch of gates without a name is, in plaintext, a call of these gates from a scope that
/// holds the input wires of the branch alone.
pub proof fn branch_is_a_call(
    p: nat,
    branch: CaseInvoke,
    outputs: Seq<u64>,
    env: Env,
    weight: nat,
    depth: nat,
    m: Machine,
)
    requires
        m.backend == plain_state(p),
    ensures
        branch matches CaseInvoke::AbstractAnonCall(inputs, _, _, subcircuit) ==> expanded(
            inputs@,
        ) matches Ok(ins) ==> {
            &&& !all_valued(m.scope, ins) ==> run_branch::<PlaintextBackend>(
                branch,
                outputs,
                env,
                weight,
                depth,
                m,
            ).1 is Err
            &&& all_valued(m.scope, ins) ==> run_branch::<PlaintextBackend>(
                branch,
                outputs,
                env,
                weight,
                depth,
                m,
            ) == run_subcircuit::<PlaintextBackend>(
                subcircuit@,
                outputs,
                ins,
                env,
                Some(weight),
                depth,
                Machine { scope: scope_of(m.scope, ins), ..m },
            )
        },
{
    match branch {
        CaseInvoke::AbstractAnonCall(inputs, _, _, subcircuit) => {
            if expanded(inputs@) is Ok {
                let ins = expanded(inputs@)->Ok_0;
                plain_branch_inputs(p, m.scope, ins);
            }
        },
        _ => {},
    }
}

/// A turn of a loop is a call with the wires that its expressions come to.
pub proof fn turn_is_a_call<B: ZKBackend>(
    body: ForLoopBody,
    call: Gate,
    env: Env,
    weight: Option<nat>,
    depth: nat,
    m: Machine,
)
    requires
        match (body, call) {
            (
                ForLoopBody::IterExprCall(name, outs, ins),
                Gate::Call(other, call_outs, call_ins),
            ) => {
                &&& name@ == other@
                &&& evaluated(outs@, m.iterators) is Ok && evaluated(outs@, m.iterators)
                    == expanded(call_outs@)
                &&& evaluated(ins@, m.iterators) is Ok && evaluated(ins@, m.iterators) == expanded(
                    call_ins@,
                )
            },
            (
                ForLoopBody::IterExprAnonCall(outs, ins, _, _, gates),
                Gate::AnonCall(call_outs, call_ins, _, _, call_gates),
            ) => {
                &&& gates@ == call_gates@
                &&& evaluated(outs@, m.iterators) is Ok && evaluated(outs@, m.iterators)
                    == expanded(call_outs@)
                &&& evaluated(ins@, m.iterators) is Ok && evaluated(ins@, m.iterators) == expanded(
                    call_ins@,
                )
            },
            _ => false,
        },
    ensures
        run_turn::<B>(body, env, weight, depth, m) == run_gate::<B>(call, env, weight, depth, m),
{
}

/// A loop without turns does nothing. One with a single turn is that turn, with the iterator
/// at its number.
pub proof fn loop_of_one_turn<B: ZKBackend>(
    name: Text,
    turn: u64,
    body: ForLoopBody,
    env: Env,
    weight: Option<nat>,
    depth: nat,
    m: Machine,
)
    requires
        !m.iterators.contains_key(name),
    ensures
        run_for::<B>(name, turn + 1, turn as int, body, env, weight, depth, m) == (
            m,
            Ok::<(), Text>(()),
        ),
        ({
            let (later, r) = run_for::<B>(
                name,
                turn as int,
                turn as int,
                body,
                env,
                weight,
                depth,
                m,
            );
            let (end, own) = run_turn::<B>(
                body,
                env,
                weight,
                depth,
                Machine { iterators: m.iterators.insert(name, turn), ..m },
            );
            &&& r is Ok <==> own is Ok
            &&& later.scope == end.scope
            &&& later.backend == end.backend
            &&& later.instances == end.instances
            &&& later.witnesses == end.witnesses
            &&& r is Ok ==> later.iterators == end.iterators.remove(name)
        }),
{
    assert(m.iterators.remove(name) =~= m.iterators);
    assert(Machine { iterators: m.iterators.remove(name), ..m } == m);
    let (end, own) = run_turn::<B>(
        body,
        env,
        weight,
        depth,
        Machine { iterators: m.iterators.insert(name, turn), ..m },
    );
    assert(run_for::<B>(name, turn + 1, turn as int, body, env, weight, depth, end) == (
        Machine { iterators: end.iterators.remove(name), ..end },
        Ok::<(), Text>(()),
    ));
}

/// A loop is its turns up to any of them, then its turns from there on.
pub proof fn loops_follow_loops<B: ZKBackend>(
    name: Text,
    first: int,
    middle: int,
    last: int,
    body: ForLoopBody,
    env: Env,
    weight: Option<nat>,
    depth: nat,
    m: Machine,
)
    requires
        first <= middle + 1,
        middle <= last,
    ensures
        ({
            let whole = run_for::<B>(name, first, last, body, env, weight, depth, m);
            let (between, r) = run_for::<B>(name, first, middle, body, env, weight, depth, m);
            whole == match r {
                Err(t) => (between, Err::<(), Text>(t)),
                Ok(_) => run_for::<B>(
                    name,
                    middle + 1,
                    last,
                    body,
                    env,
                    weight,
                    depth,
                    between,
                ),
            }
        }),
    decreases middle - first + 1,
{
    if first > middle {
        let between = Machine { iterators: m.iterators.remove(name), ..m };
        assert(between.iterators.insert(name, first as u64) =~= m.iterators.insert(
            name,
            first as u64,
        ));
        assert(between.iterators.remove(name) =~= m.iterators.remove(name));
    } else {
        let (m1, r) = run_turn::<B>(
            body,
            env,
            weight,
            depth,
            Machine { iterators: m.iterators.insert(name, first as u64), ..m },
        );
        if r is Ok {
            loops_follow_loops::<B>(
                name,
                first + 1,
                middle,
                last,
                body,
                env,
                weight,
                depth,
                m1,
            );
        }
    }
}

/// The branches of a switch get the first of the values that are left, as many as were set
/// aside or as there are, and the gates that follow get all others.
pub proof fn values_are_set_aside(values: Seq<nat>, most: nat)
    ensures
        ({
            let n = smaller(values.len(), most) as int;
            &&& 0 <= n <= values.len() && n <= most
            &&& n == values.len() || n == most
            &&& values.take(n) + values.skip(n) == values
        }),
{
    let n = smaller(values.len(), most) as int;
    assert(values.take(n) + values.skip(n) =~= values);
}

/// A loop with a first and a last turn that are the same is that turn, with its iterator at
/// this number. One whose last turn comes before its first does nothing.
pub proof fn loops_take_both_ends<B: ZKBackend>(
    gate: Gate,
    env: Env,
    weight: Option<nat>,
    depth: nat,
    m: Machine,
)
    requires
        gate matches Gate::For(name, first, last, _, body) && !m.iterators.contains_key(name@),
    ensures
        gate matches Gate::For(name, first, last, _, body) ==> {
            let (later, r) = run_gate::<B>(gate, env, weight, depth, m);
            let (end, own) = run_turn::<B>(
                body,
                env,
                weight,
                depth,
                Machine { iterators: m.iterators.insert(name@, first), ..m },
            );
            &&& last < first ==> r is Ok && later == m
            &&& last == first ==> {
                &&& r is Ok <==> own is Ok
                &&& later.scope == end.scope
                &&& later.backend == end.backend
                &&& later.instances == end.instances
                &&& later.witnesses == end.witnesses
            }
        },
{
    match gate {
        Gate::For(name, first, last, _, body) => {
            if last == first {
                loop_of_one_turn::<B>(name@, first, body, env, weight, depth, m);
            } else if last < first {
                assert(m.iterators.remove(name@) =~= m.iterators);
                assert(Machine { iterators: m.iterators.remove(name@), ..m } == m);
            }
        },
        _ => {},
    }
}

/// A loop is a shorter one that ends somewhere in it, followed by one that starts right after.
pub proof fn loops_can_be_cut<B: ZKBackend>(
    whole: Gate,
    front: Gate,
    rest: Gate,
    middle: u64,
    env: Env,
    weight: Option<nat>,
    depth: nat,
    m: Machine,
)
    requires
        whole matches Gate::For(name, first, last, outs, body) && first <= middle && middle < last
            && front == Gate::For(name, first, middle, outs, body) && rest == Gate::For(
            name,
            (middle + 1) as u64,
            last,
            outs,
            body,
        ),
    ensures
        ({
            let (between, r) = run_gate::<B>(front, env, weight, depth, m);
            let (later, own) = run_gate::<B>(whole, env, weight, depth, m);
            &&& r is Err ==> own is Err && later == between
            &&& r is Ok ==> run_gate::<B>(rest, env, weight, depth, between) == (later, own)
        }),
{
    match whole {
        Gate::For(name, first, last, _, body) => {
            loops_follow_loops::<B>(
                name@,
                first as int,
                middle as int,
                last as int,
                body,
                env,
                weight,
                depth,
                m,
            );
        },
        _ => {},
    }
}

/// What a subcircuit does to the wires of its caller, in plaintext: each output wire has the
/// value of the output at its place, and all other wires are as they were.
pub open spec fn outputs_given(
    m: Machine,
    outputs: Seq<u64>,
    inner: Scope,
    later: Machine,
) -> bool {
    &&& forall|i: int|
        0 <= i < outputs.len() ==> later.scope.contains_key(#[trigger] outputs[i])
            && later.scope[outputs[i]] == inner[i as u64]
    &&& forall|id: u64|
        !outputs.contains(id) ==> (#[trigger] later.scope.contains_key(id)
            <==> m.scope.contains_key(id)) && (m.scope.contains_key(id) ==> later.scope[id]
            == m.scope[id])
}

/// What a call of gates without a name does in plaintext, in terms of the wires that it
/// names.
pub proof fn unnamed_call_in_plaintext(
    p: nat,
    gate: Gate,
    outs: Seq<u64>,
    ins: Seq<u64>,
    env: Env,
    weight: Option<nat>,
    depth: nat,
    m: Machine,
)
    requires
        m.backend == plain_state(p),
        outs.len() + ins.len() <= wire_numbers(),
        gate matches Gate::AnonCall(outputs, inputs, _, _, _) && expanded(outputs@) == Ok::<
            Seq<u64>,
            Text,
        >(outs) && expanded(inputs@) == Ok::<Seq<u64>, Text>(ins),
    ensures
        gate matches Gate::AnonCall(_, _, _, _, gates) ==> {
            let (later, r) = run_gate::<PlaintextBackend>(gate, env, weight, depth, m);
            let (end, inner) = run_gates::<PlaintextBackend>(
                gates@,
                0,
                env,
                weight,
                depth,
                entered(m, outs, ins),
            );
            &&& r is Ok <==> all_valued(m.scope, ins) && inner is Ok && outputs_valued(
                end.scope,
                outs.len(),
            ) && all_free(m.scope, outs)
            &&& r is Ok ==> outputs_given(m, outs, end.scope, later) && later.instances
                == end.instances && later.witnesses == end.witnesses
        },
{
    match gate {
        Gate::AnonCall(_, _, _, _, gates) => {
            subcircuit_in_plaintext(p, gates@, outs, ins, env, weight, depth, m);
        },
        _ => {},
    }
}

/// What a call of a function does in plaintext, in terms of the wires that it names. The gates
/// of the function see no iterators of the caller.
pub proof fn named_call_in_plaintext(
    p: nat,
    gate: Gate,
    f: FunctionV,
    outs: Seq<u64>,
    ins: Seq<u64>,
    env: Env,
    weight: Option<nat>,
    depth: nat,
    m: Machine,
)
    requires
        m.backend == plain_state(p),
        outs.len() + ins.len() <= wire_numbers(),
        depth > 0,
        outs.len() == f.output_count,
        ins.len() == f.input_count,
        gate matches Gate::Call(name, outputs, inputs) && known(env.functions, name@) == Some(f)
            && expanded(outputs@) == Ok::<Seq<u64>, Text>(outs) && expanded(inputs@) == Ok::<
            Seq<u64>,
            Text,
        >(ins),
    ensures
        ({
            let (later, r) = run_gate::<PlaintextBackend>(gate, env, weight, depth, m);
            let (end, inner) = run_gates::<PlaintextBackend>(
                f.body,
                0,
                env,
                weight,
                (depth - 1) as nat,
                entered(Machine { iterators: Map::empty(), ..m }, outs, ins),
            );
            &&& r is Ok <==> all_valued(m.scope, ins) && inner is Ok && outputs_valued(
                end.scope,
                outs.len(),
            ) && all_free(m.scope, outs)
            &&& r is Ok ==> outputs_given(m, outs, end.scope, later) && later.instances
                == end.instances && later.witnesses == end.witnesses && later.iterators
                == m.iterators
        }),
{
    subcircuit_in_plaintext(
        p,
        f.body,
        outs,
        ins,
        env,
        weight,
        (depth - 1) as nat,
        Machine { iterators: Map::empty(), ..m },
    );
}

/// A branch that calls a function is, in plaintext, a call of that function from a scope that
/// holds the input wires of the branch alone.
pub proof fn named_branch_is_a_call(
    p: nat,
    branch: CaseInvoke,
    f: FunctionV,
    ins: Seq<u64>,
    outputs: Seq<u64>,
    env: Env,
    weight: nat,
    depth: nat,
    m: Machine,
)
    requires
        m.backend == plain_state(p),
        depth > 0,
        outputs.len() == f.output_count,
        ins.len() == f.input_count,
        branch matches CaseInvoke::AbstractGateCall(name, inputs) && known(env.functions, name@)
            == Some(f) && expanded(inputs@) == Ok::<Seq<u64>, Text>(ins),
    ensures
        !all_valued(m.scope, ins) ==> run_branch::<PlaintextBackend>(
            branch,
            outputs,
            env,
            weight,
            depth,
            m,
        ).1 is Err,
        all_valued(m.scope, ins) ==> run_branch::<PlaintextBackend>(
            branch,
            outputs,
            env,
            weight,
            depth,
            m,
        ) == run_function::<PlaintextBackend>(
            f,
            outputs,
            ins,
            env,
            Some(weight),
            (depth - 1) as nat,
            Machine { scope: scope_of(m.scope, ins), ..m },
        ),
{
    plain_branch_inputs(p, m.scope, ins);
}

/// Whether a number of values that was taken is the largest of several declared ones, or all
/// values where there are fewer.
pub open spec fn largest_taken(counts: Seq<nat>, available: nat, taken: nat) -> bool {
    &&& forall|i: int| 0 <= i < counts.len() ==> taken >= (#[trigger] counts[i]) || taken
        == available
    &&& taken == 0 || exists|i: int|
        0 <= i < counts.len() && (taken == (#[trigger] counts[i]) || (taken == available
            && available < counts[i]))
}

/// A switch that succeeds takes the first instance values that are left, as many as are
/// declared for the branch with most of them, or all where there are fewer. So it does with
/// witness values.
pub proof fn switch_takes_enough<B: ZKBackend>(
    gate: Gate,
    env: Env,
    weight: Option<nat>,
    depth: nat,
    m: Machine,
)
    requires
        gate is Switch,
        run_gate::<B>(gate, env, weight, depth, m).1 is Ok,
    ensures
        gate matches Gate::Switch(_, _, _, branches) ==> {
            let later = run_gate::<B>(gate, env, weight, depth, m).0;
            let i = m.instances.len() - later.instances.len();
            let w = m.witnesses.len() - later.witnesses.len();
            let instances = branches@.map_values(
                |b: CaseInvoke| branch_counts(env.functions, b)->Ok_0.0,
            );
            let witnesses = branches@.map_values(
                |b: CaseInvoke| branch_counts(env.functions, b)->Ok_0.1,
            );
            &&& 0 <= i && later.instances == m.instances.skip(i)
            &&& 0 <= w && later.witnesses == m.witnesses.skip(w)
            &&& largest_taken(instances, m.instances.len(), i as nat)
            &&& largest_taken(witnesses, m.witnesses.len(), w as nat)
        },
{
    match gate {
        Gate::Switch(condition, outputs, cases, branches) => {
            switch_takes_most::<B>(
                condition,
                outputs@,
                cases@,
                branches@,
                env,
                weight,
                depth,
                m,
            );
            most_is_enough_and_needed(env.functions, branches@);
            let (most_i, most_w) = most_counts(env.functions, branches@, 0, 0, 0)->Ok_0;
            values_are_set_aside(m.instances, most_i);
            values_are_set_aside(m.witnesses, most_w);
            let i = smaller(m.instances.len(), most_i);
            let w = smaller(m.witnesses.len(), most_w);
            let instances = branches@.map_values(
                |b: CaseInvoke| branch_counts(env.functions, b)->Ok_0.0,
            );
            let witnesses = branches@.map_values(
                |b: CaseInvoke| branch_counts(env.functions, b)->Ok_0.1,
            );
            assert forall|k: int| 0 <= k < branches@.len() implies (#[trigger] instances[k])
                <= most_i && witnesses[k] <= most_w by {
                assert(branch_counts(env.functions, branches@[k]) is Ok);
            }
            if most_i > 0 {
                let k = choose|k: int|
                    0 <= k < branches@.len() && (#[trigger] branch_counts(
                        env.functions,
                        branches@[k],
                    ))->Ok_0.0 == most_i;
                assert(instances[k] == most_i);
            }
            if most_w > 0 {
                let k = choose|k: int|
                    0 <= k < branches@.len() && (#[trigger] branch_counts(
                        env.functions,
                        branches@[k],
                    ))->Ok_0.1 == most_w;
                assert(witnesses[k] == most_w);
            }
            assert(largest_taken(instances, m.instances.len(), i));
            assert(largest_taken(witnesses, m.witnesses.len(), w)) by {
                assert forall|k: int| 0 <= k < witnesses.len() implies w >= (
                #[trigger] witnesses[k]) || w == m.witnesses.len() by {
                    assert(instances[k] <= most_i && witnesses[k] <= most_w);
                }
            }
        },
        _ => {},
    }
}

} // verus!
