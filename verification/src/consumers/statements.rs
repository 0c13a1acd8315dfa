//! What the evaluation of a statement that was written gate by gate comes to.

use crate::consumers::backend::{BackendState, Request, ZKBackend};
use crate::consumers::invariance::{keeps_freed, refused_once};
use crate::consumers::plaintext::{plain_state, PlaintextBackend};
use crate::consumers::semantics::{
    all_defined, ask, asserted, binary, enqueued, freed, fresh, no_instance_text, run_gate,
    run_gates, store, unary, with_constant, with_message, with_messages, Env, EvaluatorV, Machine,
    Outcome, Scope, MAX_NESTING,
};
use crate::number::le_value;
use crate::producers::builder::{pieces, StatementV, MAX_LEN};
use crate::producers::sink::{as_instances, as_relations, as_witnesses, MemorySink, Sink, SinkV};
use crate::structs::gate::{gates_of, Gate, GateV};
use crate::structs::instance::{Instance, InstanceV};
use crate::structs::message::Message;
use crate::structs::relation::{Relation, BOOL};
use crate::structs::wire::{bytes_of, Value};
use crate::structs::witness::{Witness, WitnessV};
use vstd::prelude::*;

verus! {

/// The environment of a gate that runs no others.
pub open spec fn bare() -> Env {
    Env { functions: Seq::empty(), modulus: 0, is_boolean: false }
}

/// Evaluates a gate that runs no others.
pub open spec fn run_view<B: ZKBackend>(gate: GateV, m: Machine) -> Outcome {
    match gate {
        GateV::Constant(out, value) => match B::parse(value) {
            Err(t) => (m, Err(t)),
            Ok(c) => store(m, ask::<B>(m.backend, Request::Constant(c)), out),
        },
        GateV::AssertZero(inp) => asserted::<B>(bare(), None, m, inp),
        GateV::Copy(out, inp) => unary::<B>(m, out, inp, |x: nat| Request::Copy(x)),
        GateV::Add(out, a, b) => binary::<B>(m, out, a, b, |x: nat, y: nat| Request::Add(x, y)),
        GateV::Mul(out, a, b) => binary::<B>(
            m,
            out,
            a,
            b,
            |x: nat, y: nat| Request::Multiply(x, y),
        ),
        GateV::AddConstant(out, a, value) => with_constant::<B>(
            m,
            out,
            a,
            value,
            |x: nat, c: nat| Request::AddConstant(x, c),
        ),
        GateV::MulConstant(out, a, value) => with_constant::<B>(
            m,
            out,
            a,
            value,
            |x: nat, c: nat| Request::MulConstant(x, c),
        ),
        GateV::And(out, a, b) => binary::<B>(m, out, a, b, |x: nat, y: nat| Request::And(x, y)),
        GateV::Xor(out, a, b) => binary::<B>(m, out, a, b, |x: nat, y: nat| Request::Xor(x, y)),
        GateV::Not(out, a) => unary::<B>(m, out, a, |x: nat| Request::Not(x)),
        GateV::Instance(out) => if m.instances.len() == 0 {
            (m, Err(no_instance_text()))
        } else {
            store(
                Machine { instances: m.instances.drop_first(), ..m },
                ask::<B>(m.backend, Request::Instance(m.instances[0])),
                out,
            )
        },
        GateV::Witness(out) => if m.witnesses.len() == 0 {
            store(m, ask::<B>(m.backend, Request::Witness(None)), out)
        } else {
            store(
                Machine { witnesses: m.witnesses.drop_first(), ..m },
                ask::<B>(m.backend, Request::Witness(Some(m.witnesses[0]))),
                out,
            )
        },
        GateV::Free(first, last) => freed(
            m,
            first as int,
            match last {
                Some(id) => id as int,
                None => first as int,
            },
        ),
        GateV::Compound(_) => (m, Ok(())),
    }
}

/// Evaluates gates that run no others, up to the first that fails.
pub open spec fn run_views<B: ZKBackend>(gates: Seq<GateV>, m: Machine) -> Outcome
    decreases gates.len(),
{
    if gates.len() == 0 {
        (m, Ok(()))
    } else {
        let (m1, r) = run_views::<B>(gates.drop_last(), m);
        match r {
            Err(t) => (m1, Err(t)),
            Ok(_) => run_view::<B>(gates.last(), m1),
        }
    }
}

/// Whether no gate runs others.
pub open spec fn simple(gates: Seq<GateV>) -> bool {
    forall|i: int| 0 <= i < gates.len() ==> !(#[trigger] gates[i] is Compound)
}

/// The elements that values stand for.
pub open spec fn numbers(values: Seq<Seq<u8>>) -> Seq<nat> {
    values.map_values(|v: Seq<u8>| le_value(v))
}

/// The machine in which a statement's gates start, in plaintext.
pub open spec fn opening(v: StatementV) -> Machine {
    Machine {
        backend: plain_state(le_value(v.header.field_characteristic)),
        scope: Map::empty(),
        iterators: Map::empty(),
        instances: numbers(v.instances),
        witnesses: numbers(v.witnesses),
    }
}

/// What evaluating a statement in plaintext comes to.
pub open spec fn verdict(v: StatementV) -> Outcome {
    run_views::<PlaintextBackend>(v.gates, opening(v))
}

/// The wires of a statement, numbered from zero, with their values.
pub open spec fn scope_of(values: Seq<nat>) -> Scope {
    Map::new(|id: u64| (id as nat) < values.len(), |id: u64| values[id as int])
}

/// A sink that has got nothing.
pub open spec fn nothing_received() -> SinkV {
    SinkV { instances: Seq::empty(), witnesses: Seq::empty(), relations: Seq::empty() }
}

/// The messages in a sink, in the order in which they are read.
pub open spec fn messages_in(sink: MemorySink) -> Seq<Message> {
    as_instances(sink.instances@) + as_witnesses(sink.witnesses@) + as_relations(
        sink.relations@,
    )
}

proof fn lemma_view<B: ZKBackend>(gate: Gate, env: Env, depth: nat, m: Machine)
    requires
        !(gate@ is Compound),
    ensures
        run_gate::<B>(gate, env, None, depth, m) == run_view::<B>(gate@, m),
        run_view::<B>(gate@, m).0.iterators == m.iterators,
{
    if gate is Free {
        lemma_freed(
            m,
            gate->Free_0 as int,
            match gate->Free_1 {
                Some(id) => id as int,
                None => gate->Free_0 as int,
            },
        );
    }
}

proof fn lemma_freed(m: Machine, first: int, last: int)
    ensures
        freed(m, first, last).0.iterators == m.iterators,
    decreases last - first + 1,
{
    if first <= last && m.scope.contains_key(first as u64) {
        lemma_freed(Machine { scope: m.scope.remove(first as u64), ..m }, first + 1, last);
    }
}

/// Gates are evaluated from first to last.
proof fn lemma_push<B: ZKBackend>(
    gates: Seq<Gate>,
    last: Gate,
    k: nat,
    env: Env,
    depth: nat,
    m: Machine,
)
    requires
        k <= gates.len(),
    ensures
        run_gates::<B>(gates.push(last), k, env, None, depth, m) == {
            let (m1, r) = run_gates::<B>(gates, k, env, None, depth, m);
            match r {
                Err(t) => (m1, Err(t)),
                Ok(_) => run_gate::<B>(last, env, None, depth, m1),
            }
        },
    decreases gates.len() - k,
{
    if k < gates.len() {
        assert(gates.push(last)[k as int] == gates[k as int]);
        let (m1, r) = run_gate::<B>(gates[k as int], env, None, depth, m);
        if r is Ok {
            lemma_push::<B>(gates, last, k + 1, env, depth, m1);
        }
    } else {
        reveal_with_fuel(run_gates, 2);
        assert(gates.push(last)[k as int] == last);
        let (m1, r) = run_gate::<B>(last, env, None, depth, m);
        match r {
            Ok(nothing) => {
                assert(nothing == ());
            },
            Err(_) => {},
        }
    }
}

proof fn lemma_views<B: ZKBackend>(gates: Seq<Gate>, env: Env, depth: nat, m: Machine)
    requires
        simple(gates_of(gates)),
    ensures
        run_gates::<B>(gates, 0, env, None, depth, m) == run_views::<B>(gates_of(gates), m),
        run_views::<B>(gates_of(gates), m).0.iterators == m.iterators,
    decreases gates.len(),
{
    if gates.len() > 0 {
        let front = gates.drop_last();
        assert(gates_of(gates).drop_last() =~= gates_of(front));
        assert(gates_of(gates).last() == gates.last()@);
        assert(simple(gates_of(front))) by {
            assert forall|i: int| 0 <= i < gates_of(front).len() implies !(
            #[trigger] gates_of(front)[i] is Compound) by {
                assert(gates_of(gates)[i] == gates_of(front)[i]);
            }
        }
        assert(!(gates_of(gates)[gates.len() - 1] is Compound));
        lemma_views::<B>(front, env, depth, m);
        assert(front.push(gates.last()) =~= gates);
        lemma_push::<B>(front, gates.last(), 0, env, depth, m);
        let (m1, r) = run_views::<B>(gates_of(front), m);
        lemma_view::<B>(gates.last(), env, depth, m1);
    }
}

/// Gates that follow others are evaluated where these end.
proof fn lemma_joined<B: ZKBackend>(a: Seq<GateV>, b: Seq<GateV>, m: Machine)
    ensures
        run_views::<B>(a + b, m) == {
            let (m1, r) = run_views::<B>(a, m);
            match r {
                Err(t) => (m1, Err(t)),
                Ok(_) => run_views::<B>(b, m1),
            }
        },
    decreases b.len(),
{
    if b.len() == 0 {
        assert(a + b =~= a);
        match run_views::<B>(a, m).1 {
            Ok(nothing) => {
                assert(nothing == ());
            },
            Err(_) => {},
        }
    } else {
        assert((a + b).last() == b.last());
        assert((a + b).drop_last() =~= a + b.drop_last());
        lemma_joined::<B>(a, b.drop_last(), m);
    }
}

/// Pieces make up the whole.
pub proof fn lemma_pieces_joined<T>(list: Seq<T>, size: nat)
    requires
        size > 0,
    ensures
        pieces(list, size).flatten() == list,
    decreases list.len(),
{
    if list.len() == 0 {
    } else if list.len() <= size {
        let all = seq![list];
        assert(all.drop_first() =~= Seq::empty());
        assert(all.flatten() =~= list) by {
            reveal_with_fuel(Seq::flatten, 2);
        }
    } else {
        let first = list.take(size as int);
        let rest = list.skip(size as int);
        lemma_pieces_joined(rest, size);
        let all = seq![first] + pieces(rest, size);
        assert(all.drop_first() =~= pieces(rest, size));
        assert(all.first() == first);
        assert(first + rest =~= list);
    }
}

proof fn lemma_enqueued(queue: Seq<nat>, values: Seq<Value>, k: nat)
    requires
        k <= values.len(),
    ensures
        enqueued::<PlaintextBackend>(queue, values, k) == (
            queue + numbers(bytes_of(values)).skip(k as int),
            Ok::<(), Seq<char>>(()),
        ),
    decreases values.len() - k,
{
    let all = numbers(bytes_of(values));
    if k < values.len() {
        lemma_enqueued(queue.push(le_value(values[k as int]@)), values, k + 1);
        assert(queue.push(all[k as int]) + all.skip((k + 1) as int) =~= queue + all.skip(k as int));
    } else {
        assert(queue + all.skip(k as int) =~= queue);
    }
}

/// The evaluator once all instances from the `k`-th on have reached it.
proof fn lemma_instances(
    e: EvaluatorV,
    messages: Seq<Message>,
    list: Seq<Instance>,
    lists: Seq<Seq<Seq<u8>>>,
    modulus: nat,
    k: nat,
)
    requires
        e.error is None,
        k <= list.len() <= messages.len(),
        lists.len() == list.len(),
        forall|i: int|
            0 <= i < list.len() ==> {
                &&& messages[i] == Message::Instance(list[i])
                &&& bytes_of((#[trigger] list[i]).common_inputs@) == lists[i]
                &&& le_value(list[i].header.field_characteristic@) == modulus
            },
    ensures
        with_messages::<PlaintextBackend>(e, plain_state(0), messages, k)
            == with_messages::<PlaintextBackend>(
            EvaluatorV {
                instances: e.instances + numbers(lists.skip(k as int).flatten()),
                modulus: if k < list.len() {
                    modulus
                } else {
                    e.modulus
                },
                ..e
            },
            plain_state(0),
            messages,
            list.len(),
        ),
    decreases list.len() - k,
{
    let rest = lists.skip(k as int);
    if k < list.len() {
        let instance = list[k as int];
        assert(messages[k as int] == Message::Instance(instance));
        lemma_enqueued(e.instances, instance.common_inputs@, 0);
        let (e1, s1) = with_message::<PlaintextBackend>(e, plain_state(0), messages[k as int]);
        assert(e1.instances =~= e.instances + numbers(lists[k as int]));
        lemma_instances(e1, messages, list, lists, modulus, k + 1);
        assert(rest.drop_first() =~= lists.skip((k + 1) as int));
        assert(rest.first() == lists[k as int]);
        assert(numbers(rest.flatten()) =~= numbers(lists[k as int]) + numbers(
            rest.drop_first().flatten(),
        ));
        assert(e1.instances + numbers(lists.skip((k + 1) as int).flatten()) =~= e.instances + numbers(
            rest.flatten(),
        ));
    } else {
        assert(rest =~= Seq::empty());
        assert(e.instances + numbers(rest.flatten()) =~= e.instances);
    }
}

/// The evaluator once all witnesses from the `k`-th on have reached it.
proof fn lemma_witnesses(
    e: EvaluatorV,
    messages: Seq<Message>,
    start: nat,
    list: Seq<Witness>,
    lists: Seq<Seq<Seq<u8>>>,
    modulus: nat,
    k: nat,
)
    requires
        e.error is None,
        k <= list.len(),
        start + list.len() <= messages.len(),
        lists.len() == list.len(),
        forall|i: int|
            0 <= i < list.len() ==> {
                &&& messages[start + i] == Message::Witness(list[i])
                &&& bytes_of((#[trigger] list[i]).short_witness@) == lists[i]
                &&& le_value(list[i].header.field_characteristic@) == modulus
            },
    ensures
        with_messages::<PlaintextBackend>(e, plain_state(0), messages, start + k)
            == with_messages::<PlaintextBackend>(
            EvaluatorV {
                witnesses: e.witnesses + numbers(lists.skip(k as int).flatten()),
                modulus: if k < list.len() {
                    modulus
                } else {
                    e.modulus
                },
                ..e
            },
            plain_state(0),
            messages,
            start + list.len(),
        ),
    decreases list.len() - k,
{
    let rest = lists.skip(k as int);
    if k < list.len() {
        let witness = list[k as int];
        assert(messages[(start + k) as int] == Message::Witness(witness));
        lemma_enqueued(e.witnesses, witness.short_witness@, 0);
        let (e1, s1) = with_message::<PlaintextBackend>(e, plain_state(0), messages[(start + k) as int]);
        assert(e1.witnesses =~= e.witnesses + numbers(lists[k as int]));
        lemma_witnesses(e1, messages, start, list, lists, modulus, k + 1);
        assert(rest.drop_first() =~= lists.skip((k + 1) as int));
        assert(rest.first() == lists[k as int]);
        assert(numbers(rest.flatten()) =~= numbers(lists[k as int]) + numbers(
            rest.drop_first().flatten(),
        ));
        assert(e1.witnesses + numbers(lists.skip((k + 1) as int).flatten()) =~= e.witnesses + numbers(
            rest.flatten(),
        ));
    } else {
        assert(rest =~= Seq::empty());
        assert(e.witnesses + numbers(rest.flatten()) =~= e.witnesses);
    }
}

/// The evaluator once all relations from the `k`-th on have reached it.
proof fn lemma_relations(
    e: EvaluatorV,
    m: Machine,
    messages: Seq<Message>,
    start: nat,
    list: Seq<Relation>,
    lists: Seq<Seq<GateV>>,
    modulus: nat,
    s: BackendState,
    k: nat,
)
    requires
        e.error is None,
        modulus > 0,
        m == (Machine {
            backend: plain_state(modulus),
            scope: e.scope,
            iterators: Map::empty(),
            instances: e.instances,
            witnesses: e.witnesses,
        }),
        k <= list.len(),
        start + list.len() == messages.len(),
        lists.len() == list.len(),
        forall|i: int|
            0 <= i < list.len() ==> {
                &&& messages[start + i] == Message::Relation(list[i])
                &&& gates_of((#[trigger] list[i]).gates@) == lists[i]
                &&& simple(lists[i])
                &&& le_value(list[i].header.field_characteristic@) == modulus
                &&& list[i].header.field_degree == 1
            },
    ensures
        ({
            let out = run_views::<PlaintextBackend>(lists.skip(k as int).flatten(), m);
            let e1 = with_messages::<PlaintextBackend>(e, s, messages, start + k).0;
            match out.1 {
                Ok(_) => {
                    &&& e1.error is None
                    &&& e1.scope == out.0.scope
                    &&& e1.verified == (e.verified || lists.skip(k as int).flatten().len() > 0)
                },
                Err(t) => e1.error == Some(t),
            }
        }),
    decreases list.len() - k,
{
    let rest = lists.skip(k as int);
    if k < list.len() {
        let relation = list[k as int];
        assert(messages[(start + k) as int] == Message::Relation(relation));
        let is_boolean = relation.gate_mask & BOOL == BOOL;
        let env = Env {
            functions: e.functions + all_defined(relation.functions@),
            modulus,
            is_boolean,
        };
        lemma_views::<PlaintextBackend>(relation.gates@, env, MAX_NESTING as nat, m);
        let first = run_views::<PlaintextBackend>(lists[k as int], m);
        lemma_constant_field(lists[k as int], m);
        let (e1, s1) = with_message::<PlaintextBackend>(e, s, messages[(start + k) as int]);
        assert(rest.drop_first() =~= lists.skip((k + 1) as int));
        assert(rest.first() == lists[k as int]);
        lemma_joined::<PlaintextBackend>(lists[k as int], rest.drop_first().flatten(), m);
        if first.1 is Ok {
            lemma_relations(
                e1,
                first.0,
                messages,
                start,
                list,
                lists,
                modulus,
                s1,
                k + 1,
            );
        } else {
            refused_once::<PlaintextBackend>(e1, s1, messages, start + k + 1);
        }
    } else {
        assert(rest =~= Seq::empty());
    }
}

/// Gates do not change the field of the plaintext.
pub proof fn lemma_constant_field(gates: Seq<GateV>, m: Machine)
    ensures
        run_views::<PlaintextBackend>(gates, m).0.backend == m.backend,
    decreases gates.len(),
{
    if gates.len() > 0 {
        lemma_constant_field(gates.drop_last(), m);
        let (m1, r) = run_views::<PlaintextBackend>(gates.drop_last(), m);
        if gates.last() is Free {
            keeps_freed::<PlaintextBackend>(
                m1,
                gates.last()->Free_0 as int,
                match gates.last()->Free_1 {
                    Some(id) => id as int,
                    None => gates.last()->Free_0 as int,
                },
            );
        }
    }
}

/// Evaluating the messages of a statement in plaintext gives what its gates come to:
/// the same wires, or the same refusal. A statement without gates is not verified.
pub proof fn messages_give_verdict(v: StatementV, sink: MemorySink)
    requires
        sink.received() == v.sent_to(nothing_received()),
        simple(v.gates),
        le_value(v.header.field_characteristic) > 0,
        v.header.field_degree == 1,
    ensures
        ({
            let e = with_messages::<PlaintextBackend>(
                fresh(),
                plain_state(0),
                messages_in(sink),
                0,
            ).0;
            match verdict(v).1 {
                Ok(_) => {
                    &&& e.error is None
                    &&& e.scope == verdict(v).0.scope
                    &&& e.verified == (v.gates.len() > 0)
                },
                Err(t) => e.error == Some(t),
            }
        }),
{
    let size = MAX_LEN as nat;
    let messages = messages_in(sink);
    let modulus = le_value(v.header.field_characteristic);
    let (il, wl, rl) = (sink.instances@, sink.witnesses@, sink.relations@);
    let (ip, wp, rp) = (
        pieces(v.instances, size),
        pieces(v.witnesses, size),
        pieces(v.gates, size),
    );
    lemma_pieces_joined(v.instances, size);
    lemma_pieces_joined(v.witnesses, size);
    lemma_pieces_joined(v.gates, size);
    assert(ip.skip(0) =~= ip && wp.skip(0) =~= wp && rp.skip(0) =~= rp);
    assert(sink.received().instances =~= v.instance_messages(ip));
    assert(sink.received().witnesses =~= v.witness_messages(wp));
    assert(sink.received().relations =~= v.relation_messages(rp));
    assert forall|i: int| 0 <= i < il.len() implies {
        &&& messages[i] == Message::Instance(il[i])
        &&& bytes_of((#[trigger] il[i]).common_inputs@) == ip[i]
        &&& le_value(il[i].header.field_characteristic@) == modulus
    } by {
        assert(sink.received().instances[i] == il[i]@);
        assert(v.instance_messages(ip)[i] == (InstanceV { header: v.header, common_inputs: ip[i] }));
    }
    let e0 = fresh();
    lemma_instances(e0, messages, il, ip, modulus, 0);
    let e1 = EvaluatorV {
        instances: e0.instances + numbers(ip.flatten()),
        modulus: if 0 < il.len() {
            modulus
        } else {
            e0.modulus
        },
        ..e0
    };
    assert forall|i: int| 0 <= i < wl.len() implies {
        &&& messages[il.len() + i] == Message::Witness(wl[i])
        &&& bytes_of((#[trigger] wl[i]).short_witness@) == wp[i]
        &&& le_value(wl[i].header.field_characteristic@) == modulus
    } by {
        assert(sink.received().witnesses[i] == wl[i]@);
        assert(v.witness_messages(wp)[i] == (WitnessV { header: v.header, short_witness: wp[i] }));
    }
    lemma_witnesses(e1, messages, il.len(), wl, wp, modulus, 0);
    let e2 = EvaluatorV {
        witnesses: e1.witnesses + numbers(wp.flatten()),
        modulus: if 0 < wl.len() {
            modulus
        } else {
            e1.modulus
        },
        ..e1
    };
    assert(e2.instances =~= numbers(v.instances));
    assert(e2.witnesses =~= numbers(v.witnesses));
    let start = il.len() + wl.len();
    assert forall|i: int| 0 <= i < rl.len() implies {
        &&& messages[start + i] == Message::Relation(rl[i])
        &&& gates_of((#[trigger] rl[i]).gates@) == rp[i]
        &&& simple(rp[i])
        &&& le_value(rl[i].header.field_characteristic@) == modulus
        &&& rl[i].header.field_degree == 1
    } by {
        assert(sink.received().relations[i] == rl[i]@);
        assert(v.relation_messages(rp)[i].gates == rp[i]);
        lemma_pieces_simple(v.gates, size, i);
    }
    lemma_relations(
        e2,
        opening(v),
        messages,
        start,
        rl,
        rp,
        modulus,
        plain_state(0),
        0,
    );
}

/// Each piece of a list of simple gates is one.
pub(crate) proof fn lemma_pieces_simple(gates: Seq<GateV>, size: nat, i: int)
    requires
        simple(gates),
        0 <= i < pieces(gates, size).len(),
    ensures
        simple(pieces(gates, size)[i]),
    decreases gates.len(),
{
    if gates.len() > size && size > 0 && i > 0 {
        let rest = gates.skip(size as int);
        assert(simple(rest));
        lemma_pieces_simple(rest, size, i - 1);
    }
}

} // verus!
