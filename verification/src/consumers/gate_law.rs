//! What the gates that run no others do to the values of wires, in plaintext.

use crate::consumers::plaintext::{plain_state, PlaintextBackend};
use crate::consumers::semantics::{
    already_text, freed, no_value_text, not_zero_text, run_gate, Env, Machine, Text,
};
use crate::error::decimal;
use crate::number::{bits_and, bits_xor, le_value};
use crate::number_law::decimal_reads_back;
use crate::structs::gate::Gate;
use vstd::prelude::*;

verus! {

/// Whether a gate gives a wire a value and does nothing else to the wires and to the backend.
pub open spec fn gives(gate: Gate, env: Env, depth: nat, m: Machine, out: u64, value: nat) -> bool {
    forall|weight: Option<nat>|
        {
            let (later, r) = #[trigger] run_gate::<PlaintextBackend>(gate, env, weight, depth, m);
            &&& r is Ok
            &&& later.scope == m.scope.insert(out, value)
            &&& later.backend == m.backend
            &&& later.iterators == m.iterators
        }
}

/// Whether a gate is refused.
pub open spec fn refuses(gate: Gate, env: Env, depth: nat, m: Machine) -> bool {
    forall|weight: Option<nat>|
        (#[trigger] run_gate::<PlaintextBackend>(gate, env, weight, depth, m)).1 is Err
}

/// Whether a gate takes no instance and no witness values.
pub open spec fn takes_nothing(gate: Gate, env: Env, depth: nat, m: Machine) -> bool {
    forall|weight: Option<nat>|
        {
            let later = (#[trigger] run_gate::<PlaintextBackend>(gate, env, weight, depth, m)).0;
            later.instances == m.instances && later.witnesses == m.witnesses
        }
}

/// Whether a wire can be given a value by a gate with two input wires.
pub open spec fn open_for(m: Machine, out: u64, a: u64, b: u64) -> bool {
    m.scope.contains_key(a) && m.scope.contains_key(b) && !m.scope.contains_key(out)
}

/// Gates with two input wires. Each is refused just where an input has no value or the output
/// has one. Else the output is the sum or the product of the inputs, or has the binary digits
/// that both have, or just one of them, reduced by the characteristic.
pub proof fn gates_of_two_wires(
    p: nat,
    out: u64,
    a: u64,
    b: u64,
    env: Env,
    depth: nat,
    m: Machine,
)
    requires
        p > 0,
        m.backend == plain_state(p),
    ensures
        ({
            let (x, y) = (m.scope[a], m.scope[b]);
            if open_for(m, out, a, b) {
                &&& gives(Gate::Add(out, a, b), env, depth, m, out, (x + y) % p)
                &&& gives(Gate::Mul(out, a, b), env, depth, m, out, (x * y) % p)
                &&& gives(Gate::And(out, a, b), env, depth, m, out, bits_and(x, y) % p)
                &&& gives(Gate::Xor(out, a, b), env, depth, m, out, bits_xor(x, y) % p)
            } else {
                &&& refuses(Gate::Add(out, a, b), env, depth, m)
                &&& refuses(Gate::Mul(out, a, b), env, depth, m)
                &&& refuses(Gate::And(out, a, b), env, depth, m)
                &&& refuses(Gate::Xor(out, a, b), env, depth, m)
            }
        }),
        takes_nothing(Gate::Add(out, a, b), env, depth, m),
        takes_nothing(Gate::Mul(out, a, b), env, depth, m),
        takes_nothing(Gate::And(out, a, b), env, depth, m),
        takes_nothing(Gate::Xor(out, a, b), env, depth, m),
{
}

/// Gates with one input wire. Each is refused just where the input has no value or the output
/// has one. Else the output is the input, its sum or product with a constant, reduced by the
/// characteristic, or one where the input is zero and zero where it is not.
pub proof fn gates_of_one_wire(
    p: nat,
    out: u64,
    a: u64,
    constant: Vec<u8>,
    env: Env,
    depth: nat,
    m: Machine,
)
    requires
        p > 0,
        m.backend == plain_state(p),
    ensures
        ({
            let x = m.scope[a];
            let c = le_value(constant@);
            if open_for(m, out, a, a) {
                &&& gives(Gate::Copy(out, a), env, depth, m, out, x)
                &&& gives(Gate::AddConstant(out, a, constant), env, depth, m, out, (x + c) % p)
                &&& gives(Gate::MulConstant(out, a, constant), env, depth, m, out, (x * c) % p)
                &&& x == 0 ==> gives(Gate::Not(out, a), env, depth, m, out, 1)
                &&& x != 0 ==> gives(Gate::Not(out, a), env, depth, m, out, 0)
            } else {
                &&& refuses(Gate::Copy(out, a), env, depth, m)
                &&& refuses(Gate::AddConstant(out, a, constant), env, depth, m)
                &&& refuses(Gate::MulConstant(out, a, constant), env, depth, m)
                &&& refuses(Gate::Not(out, a), env, depth, m)
            }
        }),
        takes_nothing(Gate::Copy(out, a), env, depth, m),
        takes_nothing(Gate::AddConstant(out, a, constant), env, depth, m),
        takes_nothing(Gate::MulConstant(out, a, constant), env, depth, m),
        takes_nothing(Gate::Not(out, a), env, depth, m),
{
}

/// Gates without input wires. A constant is the number that its bytes stand for, and takes no
/// instance and no witness value. An instance or witness gate takes the first value that is
/// left, and no other; it is refused where none is left. All are refused where the output has
/// a value.
pub proof fn gates_without_inputs(
    p: nat,
    out: u64,
    constant: Vec<u8>,
    env: Env,
    depth: nat,
    m: Machine,
)
    requires
        p > 0,
        m.backend == plain_state(p),
    ensures
        ({
            let constant_gate = Gate::Constant(out, constant);
            let instance_gate = Gate::Instance(out);
            let witness_gate = Gate::Witness(out);
            &&& takes_nothing(constant_gate, env, depth, m)
            &&& if m.scope.contains_key(out) {
                &&& refuses(constant_gate, env, depth, m)
                &&& refuses(instance_gate, env, depth, m)
                &&& refuses(witness_gate, env, depth, m)
            } else {
                &&& gives(constant_gate, env, depth, m, out, le_value(constant@))
                &&& m.instances.len() == 0 ==> refuses(instance_gate, env, depth, m)
                &&& m.witnesses.len() == 0 ==> refuses(witness_gate, env, depth, m)
                &&& m.instances.len() > 0 ==> gives(
                    instance_gate,
                    env,
                    depth,
                    m,
                    out,
                    m.instances[0],
                )
                &&& m.witnesses.len() > 0 ==> gives(
                    witness_gate,
                    env,
                    depth,
                    m,
                    out,
                    m.witnesses[0],
                )
            }
        }),
{
}

/// What an instance or witness gate leaves of the values that are left: all but the first of
/// its kind.
pub proof fn values_are_taken_in_order(
    p: nat,
    out: u64,
    env: Env,
    weight: Option<nat>,
    depth: nat,
    m: Machine,
)
    requires
        m.backend == plain_state(p),
    ensures
        ({
            let (later, r) = run_gate::<PlaintextBackend>(
                Gate::Instance(out),
                env,
                weight,
                depth,
                m,
            );
            r is Ok ==> seq![later.scope[out]] + later.instances == m.instances && later.witnesses
                == m.witnesses
        }),
        ({
            let (later, r) = run_gate::<PlaintextBackend>(
                Gate::Witness(out),
                env,
                weight,
                depth,
                m,
            );
            r is Ok ==> seq![later.scope[out]] + later.witnesses == m.witnesses && later.instances
                == m.instances
        }),
{
    if m.instances.len() > 0 {
        assert(seq![m.instances[0]] + m.instances.drop_first() =~= m.instances);
    }
    if m.witnesses.len() > 0 {
        assert(seq![m.witnesses[0]] + m.witnesses.drop_first() =~= m.witnesses);
    }
}

/// Outside all switches an assertion is accepted just where its wire has a value, and this is
/// zero. It changes nothing.
pub proof fn assertions_check_zero(p: nat, a: u64, env: Env, depth: nat, m: Machine)
    requires
        m.backend == plain_state(p),
    ensures
        ({
            let (later, r) = run_gate::<PlaintextBackend>(
                Gate::AssertZero(a),
                env,
                None,
                depth,
                m,
            );
            &&& r is Ok <==> m.scope.contains_key(a) && m.scope[a] == 0
            &&& later == m
        }),
{
}

/// Forgetting wires is accepted just where each of them has a value, and changes nothing but
/// the wires. Without a last wire it forgets the first one alone.
pub proof fn only_valued_wires_are_forgotten(
    first: u64,
    last: u64,
    env: Env,
    weight: Option<nat>,
    depth: nat,
    m: Machine,
)
    ensures
        ({
            let (later, r) = run_gate::<PlaintextBackend>(
                Gate::Free(first, Some(last)),
                env,
                weight,
                depth,
                m,
            );
            &&& r is Ok <==> forall|id: u64|
                first <= id <= last ==> #[trigger] m.scope.contains_key(id)
            &&& later == (Machine { scope: later.scope, ..m })
            &&& r is Ok ==> forall|id: u64| #[trigger]
                later.scope.contains_key(id) <==> m.scope.contains_key(id) && !(first <= id <= last)
        }),
        run_gate::<PlaintextBackend>(Gate::Free(first, None), env, weight, depth, m) == run_gate::<
            PlaintextBackend,
        >(Gate::Free(first, Some(first)), env, weight, depth, m),
{
    lemma_freed(m, first as int, last as int);
}

proof fn lemma_freed(m: Machine, first: int, last: int)
    requires
        0 <= first,
        last <= u64::MAX,
    ensures
        freed(m, first, last).1 is Ok <==> forall|id: u64|
            first <= id <= last ==> #[trigger] m.scope.contains_key(id),
        freed(m, first, last).0 == (Machine { scope: freed(m, first, last).0.scope, ..m }),
        freed(m, first, last).1 is Ok ==> forall|id: u64| #[trigger]
            freed(m, first, last).0.scope.contains_key(id) <==> m.scope.contains_key(id) && !(first
                <= id <= last),
    decreases last - first + 1,
{
    if first <= last {
        let id = first as u64;
        if m.scope.contains_key(id) {
            let next = Machine { scope: m.scope.remove(id), ..m };
            lemma_freed(next, first + 1, last);
            assert(forall|other: u64|
                first + 1 <= other <= last ==> (#[trigger] next.scope.contains_key(other)
                    <==> m.scope.contains_key(other)));
            assert(forall|other: u64|
                first <= other <= last ==> #[trigger] m.scope.contains_key(other) || other != id);
        } else {
            assert(first <= id <= last);
        }
    }
}

/// A gate with two input wires is refused for the first of them that has no value, else for
/// its output wire where this has one already.
pub proof fn refusals_name_the_wire(
    p: nat,
    out: u64,
    a: u64,
    b: u64,
    env: Env,
    weight: Option<nat>,
    depth: nat,
    m: Machine,
)
    requires
        p > 0,
        m.backend == plain_state(p),
    ensures
        ({
            let r = run_gate::<PlaintextBackend>(Gate::Add(out, a, b), env, weight, depth, m).1;
            &&& !m.scope.contains_key(a) ==> r == Err::<(), Text>(no_value_text(a))
            &&& m.scope.contains_key(a) && !m.scope.contains_key(b) ==> r == Err::<(), Text>(
                no_value_text(b),
            )
            &&& m.scope.contains_key(a) && m.scope.contains_key(b) && m.scope.contains_key(out)
                ==> r == Err::<(), Text>(already_text(out))
        }),
        ({
            let r = run_gate::<PlaintextBackend>(Gate::Mul(out, a, b), env, weight, depth, m).1;
            &&& !m.scope.contains_key(a) ==> r == Err::<(), Text>(no_value_text(a))
            &&& m.scope.contains_key(a) && !m.scope.contains_key(b) ==> r == Err::<(), Text>(
                no_value_text(b),
            )
            &&& m.scope.contains_key(a) && m.scope.contains_key(b) && m.scope.contains_key(out)
                ==> r == Err::<(), Text>(already_text(out))
        }),
        ({
            let r = run_gate::<PlaintextBackend>(Gate::AssertZero(a), env, None, depth, m).1;
            &&& !m.scope.contains_key(a) ==> r == Err::<(), Text>(no_value_text(a))
            &&& m.scope.contains_key(a) && m.scope[a] != 0 ==> r == Err::<(), Text>(
                not_zero_text(a),
            )
        }),
{
}

/// The words of a refusal tell which wire it is for.
pub proof fn words_tell_the_wire(a: u64, b: u64)
    ensures
        no_value_text(a) == no_value_text(b) ==> a == b,
        already_text(a) == already_text(b) ==> a == b,
        not_zero_text(a) == not_zero_text(b) ==> a == b,
        no_value_text(a).skip(24) == decimal(a as nat),
{
    reveal_strlit("No value given for wire_");
    let text = no_value_text(a);
    assert(text.skip(24) =~= decimal(a as nat));
    assert(no_value_text(b).skip(24) =~= decimal(b as nat));
    decimal_reads_back(a as nat);
    decimal_reads_back(b as nat);
    let first = "Wire_"@;
    let set = " already has a value in this scope."@;
    let zero = " (may be weighted) should be 0, while it is not"@;
    if already_text(a) == already_text(b) {
        lemma_between(first, decimal(a as nat), decimal(b as nat), set);
    }
    if not_zero_text(a) == not_zero_text(b) {
        lemma_between(first, decimal(a as nat), decimal(b as nat), zero);
    }
}

proof fn lemma_between(before: Text, a: Text, b: Text, after: Text)
    requires
        before + a + after == before + b + after,
    ensures
        a == b,
{
    let x = before + a + after;
    let y = before + b + after;
    assert(x.len() == y.len());
    let n = before.len() as int;
    assert(x.subrange(n, n + a.len()) =~= a);
    assert(y.subrange(n, n + b.len()) =~= b);
}

/// Before there is a field no gate computes anything: all that would have to reduce a value
/// are refused.
pub proof fn no_arithmetic_without_field(
    out: u64,
    a: u64,
    b: u64,
    constant: Vec<u8>,
    env: Env,
    depth: nat,
    m: Machine,
)
    requires
        m.backend == plain_state(0),
    ensures
        refuses(Gate::Add(out, a, b), env, depth, m),
        refuses(Gate::Mul(out, a, b), env, depth, m),
        refuses(Gate::And(out, a, b), env, depth, m),
        refuses(Gate::Xor(out, a, b), env, depth, m),
        refuses(Gate::AddConstant(out, a, constant), env, depth, m),
        refuses(Gate::MulConstant(out, a, constant), env, depth, m),
{
}

} // verus!
