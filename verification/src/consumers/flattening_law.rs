//! Flattening a statement keeps what it states.

use crate::consumers::backend::{BackendState, Request, ZKBackend};
use crate::consumers::flattening::{
    flattener_after, flattener_state, gate_of, no_wire_text, statement_of, IRFlattener, WAITING,
    WRITING,
};
use crate::consumers::invariance::keeps_messages;
use crate::consumers::plaintext::{plain_answer, plain_state, PlaintextBackend};
use crate::consumers::semantics::{fresh, violations, with_messages, Machine, Text};
use crate::consumers::simulation::{
    filled, lasting, permitted, same_field, sim_messages, simulates, takes_field, valued, Dialect,
    Reading,
};
use crate::consumers::statements::{
    lemma_pieces_simple, messages_give_verdict, messages_in, nothing_received, numbers, opening,
    run_view, run_views, scope_of, simple,
};
use crate::number::{le_value, lemma_value_of_bytes};
use crate::producers::build_gates::NO_OUTPUT;
use crate::producers::builder::{pieces, MAX_LEN};
use crate::producers::sink::{MemorySink, Sink};
use crate::structs::gate::gates_of;
use crate::structs::message::Message;
use crate::structs::relation::{Relation, ARITH, BOOL, SIMPLE};
use vstd::prelude::*;

verus! {

/// The value of a wire among the values of all wires.
pub open spec fn value_among(values: Seq<nat>) -> spec_fn(nat) -> Option<nat> {
    |w: nat|
        if w < values.len() {
            Some(values[w as int])
        } else {
            None
        }
}

/// The values of all wires after one more request, in plaintext.
pub open spec fn next_values(modulus: nat, values: Seq<nat>, r: Request) -> Option<Seq<nat>> {
    match filled(value_among(values), r) {
        None => None,
        Some(q) => match plain_answer(modulus, q) {
            Err(_) => None,
            Ok(x) => if r is AssertZero {
                Some(values)
            } else {
                Some(values.push(x))
            },
        },
    }
}

/// The values of all wires that requests give, in plaintext, unless one is refused.
/// The first request says what the field is.
pub open spec fn replayed(modulus: nat, requests: Seq<Request>) -> Option<Seq<nat>>
    decreases requests.len(),
{
    if requests.len() <= 1 {
        Some(Seq::empty())
    } else {
        match replayed(modulus, requests.drop_last()) {
            None => None,
            Some(values) => next_values(modulus, values, requests.last()),
        }
    }
}

/// Whether a request is refused in plaintext, all its wires having a value.
pub open spec fn refuted(modulus: nat, requests: Seq<Request>) -> bool
    decreases requests.len(),
{
    requests.len() > 1 && (refuted(modulus, requests.drop_last()) || match replayed(
        modulus,
        requests.drop_last(),
    ) {
        None => false,
        Some(values) => match filled(value_among(values), requests.last()) {
            None => false,
            Some(q) => plain_answer(modulus, q) is Err,
        },
    })
}

/// Whether a flattener writes a statement over the prime field of a characteristic.
pub open spec fn started(modulus: nat, s: BackendState) -> bool {
    &&& s == flattener_state(WRITING, modulus, s.requests, s.given)
    &&& s.requests.len() > 0
    &&& s.requests[0] matches Request::SetField { modulus: bytes, degree, is_boolean }
    &&& le_value(bytes) == modulus
    &&& degree == 1
    &&& writable(s.requests)
    &&& statement_of(s.requests).free_id <= NO_OUTPUT
}

/// How the states of a flattener are read.
pub open spec fn flattener_reading(modulus: nat) -> Reading {
    Reading {
        modulus,
        all: true,
        dialect: Dialect { boolean: true, input: |x: nat| true },
        value: |s: BackendState, w: nat|
            match replayed(modulus, s.requests) {
                None => None,
                Some(values) => value_among(values)(w),
            },
        good: |s: BackendState| started(modulus, s) && replayed(modulus, s.requests) is Some,
        bad: |s: BackendState| started(modulus, s) && refuted(modulus, s.requests),
        gave_up: |t: Text| t == no_wire_text(),
    }
}

proof fn lemma_wires(modulus: nat, requests: Seq<Request>)
    requires
        requests.len() > 0,
        requests[0] is SetField,
    ensures
        replayed(modulus, requests) matches Some(values) ==> values.len() == statement_of(
            requests,
        ).free_id,
    decreases requests.len(),
{
    if requests.len() > 1 {
        lemma_wires(modulus, requests.drop_last());
    }
}

#[verifier::rlimit(40)]
proof fn lemma_flattener_simulates(modulus: nat)
    requires
        modulus > 0,
    ensures
        simulates::<IRFlattener<MemorySink>>(flattener_reading(modulus)),
{
    let read = flattener_reading(modulus);
    assert forall|s: BackendState, r: Request| (read.bad)(s) implies (read.bad)(
        #[trigger] IRFlattener::<MemorySink>::after(s, r),
    ) by {
        let t = flattener_after(s, r);
        if t != s {
            assert(t.requests.drop_last() =~= s.requests);
            assert(t.requests[0] == s.requests[0]);
        }
    }
    assert forall|s: BackendState, r: Request|
        (read.good)(s) && permitted(read, r) && valued(read, s, r) is Some implies {
        let plain = plain_answer(read.modulus, valued(read, s, r)->Some_0);
        let reply = (
            #[trigger] IRFlattener::<MemorySink>::after(s, r),
            IRFlattener::<MemorySink>::answer(s, r),
        );
        if r is AssertZero {
            crate::consumers::simulation::agrees_on_zero(read, s, plain, reply)
        } else {
            crate::consumers::simulation::agrees(read, s, plain, reply)
        }
    } by {
        let values = replayed(modulus, s.requests)->Some_0;
        lemma_wires(modulus, s.requests);
        let t = flattener_after(s, r);
        assert(filled(value_among(values), r) == valued(read, s, r));
        if t != s {
            assert(t.requests.drop_last() =~= s.requests);
            assert(t.requests[0] == s.requests[0]);
            assert(t.requests.last() == r);
        }
    }
}

/// Whether no witness value is missing.
pub open spec fn complete(requests: Seq<Request>) -> bool {
    forall|i: int| 0 <= i < requests.len() ==> #[trigger] requests[i] != Request::Witness(None)
}

/// Whether all requests but the first are for gates.
pub open spec fn writable(requests: Seq<Request>) -> bool {
    forall|i: int| 0 < i < requests.len() ==> gate_of(#[trigger] requests[i]) is Some
}

/// A machine with the values that a statement takes, followed by others.
spec fn supplied(
    modulus: nat,
    requests: Seq<Request>,
    more_i: Seq<nat>,
    more_w: Seq<nat>,
) -> Machine {
    Machine {
        backend: plain_state(modulus),
        scope: Map::empty(),
        iterators: Map::empty(),
        instances: numbers(statement_of(requests).instances) + more_i,
        witnesses: numbers(statement_of(requests).witnesses) + more_w,
    }
}

/// A gate gives its wire the value that its request gives, or is refused where the
/// request is.
proof fn lemma_gate(modulus: nat, values: Seq<nat>, r: Request, m: Machine)
    requires
        modulus > 0,
        m.backend == plain_state(modulus),
        m.scope == scope_of(values),
        r != Request::Witness(None),
        filled(value_among(values), r) is Some,
        r is AssertZero || values.len() < NO_OUTPUT,
        values.len() <= NO_OUTPUT,
        r is Instance ==> m.instances.len() > 0 && m.instances[0] == r->Instance_0,
        r is Witness ==> m.witnesses.len() > 0 && m.witnesses[0] == r->Witness_0->Some_0,
    ensures
        gate_of(r) is Some,
        ({
            let gate = gate_of(r)->Some_0;
            let out = run_view::<PlaintextBackend>(
                gate.writing_to(
                    if gate.writes() {
                        values.len() as u64
                    } else {
                        NO_OUTPUT
                    },
                ),
                m,
            );
            match next_values(modulus, values, r) {
                None => out.1 is Err,
                Some(next) => out.1 is Ok && out.0 == (Machine {
                    scope: scope_of(next),
                    instances: if r is Instance {
                        m.instances.drop_first()
                    } else {
                        m.instances
                    },
                    witnesses: if r is Witness {
                        m.witnesses.drop_first()
                    } else {
                        m.witnesses
                    },
                    ..m
                }),
            }
        }),
{
    let q = filled(value_among(values), r)->Some_0;
    match r {
        Request::Instance(x) => {
            lemma_value_of_bytes(x);
        },
        Request::Witness(Some(x)) => {
            lemma_value_of_bytes(x);
        },
        Request::Constant(c) => {
            lemma_value_of_bytes(c);
        },
        Request::AddConstant(_, c) => {
            lemma_value_of_bytes(c);
        },
        Request::MulConstant(_, c) => {
            lemma_value_of_bytes(c);
        },
        _ => {},
    }
    if plain_answer(modulus, q) is Ok && !(r is AssertZero) {
        let x = plain_answer(modulus, q)->Ok_0;
        assert(scope_of(values).insert(values.len() as u64, x) =~= scope_of(values.push(x)));
    }
}

/// Evaluating the gates that requests are written as gives the wires the values that
/// the requests give, or refuses where these are refused.
#[verifier::rlimit(40)]
proof fn lemma_replay(
    modulus: nat,
    requests: Seq<Request>,
    more_i: Seq<nat>,
    more_w: Seq<nat>,
)
    requires
        modulus > 0,
        requests.len() > 0,
        requests[0] is SetField,
        writable(requests),
        complete(requests),
        statement_of(requests).free_id <= NO_OUTPUT,
    ensures
        ({
            let out = run_views::<PlaintextBackend>(
                statement_of(requests).gates,
                supplied(modulus, requests, more_i, more_w),
            );
            &&& replayed(modulus, requests) matches Some(values) ==> {
                &&& out.1 is Ok
                &&& out.0 == (Machine {
                    scope: scope_of(values),
                    instances: more_i,
                    witnesses: more_w,
                    ..supplied(modulus, requests, more_i, more_w)
                })
            }
            &&& refuted(modulus, requests) ==> out.1 is Err
        }),
    decreases requests.len(),
{
    let v = statement_of(requests);
    let m = supplied(modulus, requests, more_i, more_w);
    if requests.len() == 1 {
        assert(scope_of(Seq::empty()) =~= Map::empty());
        assert(m.instances =~= more_i);
        assert(m.witnesses =~= more_w);
    } else {
        let front = requests.drop_last();
        let last = requests.last();
        let ni = if last is Instance {
            seq![last->Instance_0] + more_i
        } else {
            more_i
        };
        let nw = if last is Witness {
            seq![last->Witness_0->Some_0] + more_w
        } else {
            more_w
        };
        assert(complete(front)) by {
            assert forall|i: int| 0 <= i < front.len() implies #[trigger] front[i]
                != Request::Witness(None) by {
                assert(requests[i] == front[i]);
            }
        }
        assert(writable(front)) by {
            assert forall|i: int| 0 < i < front.len() implies gate_of(
                #[trigger] front[i],
            ) is Some by {
                assert(requests[i] == front[i]);
            }
        }
        assert(last == requests[requests.len() - 1]);
        assert(front[0] == requests[0]);
        lemma_replay(modulus, front, ni, nw);
        assert(v.gates.drop_last() =~= statement_of(front).gates);
        assert(m == supplied(modulus, front, ni, nw)) by {
            if last is Instance {
                lemma_value_of_bytes(last->Instance_0);
            }
            if last is Witness {
                lemma_value_of_bytes(last->Witness_0->Some_0);
            }
            assert(m.instances =~= supplied(modulus, front, ni, nw).instances);
            assert(m.witnesses =~= supplied(modulus, front, ni, nw).witnesses);
        }
        if replayed(modulus, front) is Some {
            let values = replayed(modulus, front)->Some_0;
            lemma_wires(modulus, front);
            if filled(value_among(values), last) is Some {
                let (m1, r1) = run_views::<PlaintextBackend>(statement_of(front).gates, m);
                lemma_gate(modulus, values, last, m1);
                assert(last is Instance ==> ni.drop_first() =~= more_i);
                assert(last is Witness ==> nw.drop_first() =~= more_w);
            }
        }
    }
}

/// The state of a flattener that was asked nothing, where its sink has got nothing.
pub open spec fn idle() -> BackendState {
    flattener_state(WAITING, 0, Seq::empty(), Some(nothing_received()))
}

proof fn lemma_takes_field(modulus: nat)
    ensures
        takes_field::<IRFlattener<MemorySink>>(flattener_reading(modulus), idle()),
{
    let read = flattener_reading(modulus);
    assert forall|s: BackendState, bytes: Seq<u8>, is_boolean: bool|
        ((read.good)(s) || s == idle()) && le_value(bytes) == read.modulus implies {
        let t = #[trigger] IRFlattener::<MemorySink>::after(
            s,
            Request::SetField { modulus: bytes, degree: 1, is_boolean },
        );
        &&& IRFlattener::<MemorySink>::answer(
            s,
            Request::SetField { modulus: bytes, degree: 1, is_boolean },
        ) is Ok
        &&& (read.good)(t)
        &&& (read.good)(s) ==> lasting(read, s, t)
    } by {
        let request = Request::SetField { modulus: bytes, degree: 1, is_boolean };
        if s == idle() {
            let t = flattener_after(s, request);
            assert(t.requests =~= seq![request]);
        }
    }
}

/// Flattening succeeds wherever evaluating in plaintext does, unless no wire is left.
/// The flattened statement then states the same: evaluating it in plaintext succeeds
/// just where evaluating the statement does, and gives the same wires the same values. It
/// gives no violation just where, besides, some gate was written.
/// All relations are to be over one prime field, and no witness value may be missing.
#[verifier::rlimit(40)]
pub proof fn flattening_keeps_meaning(messages: Seq<Message>, modulus: nat, sink: MemorySink)
    requires
        modulus > 0,
        same_field(messages, modulus),
        ({
            let (e, s) = with_messages::<IRFlattener<MemorySink>>(fresh(), idle(), messages, 0);
            &&& complete(s.requests)
            &&& e.error is None && s.settings[0] == WRITING ==> sink.received() == statement_of(
                s.requests,
            ).sent_to(nothing_received())
        }),
    ensures
        ({
            let (e, s) = with_messages::<IRFlattener<MemorySink>>(fresh(), idle(), messages, 0);
            let given = with_messages::<PlaintextBackend>(
                fresh(),
                plain_state(0),
                messages,
                0,
            ).0;
            let flat = with_messages::<PlaintextBackend>(
                fresh(),
                plain_state(0),
                messages_in(sink),
                0,
            ).0;
            &&& given.error is None ==> e.error is None || e.error == Some(no_wire_text())
            &&& e.error is None && s.settings[0] == WRITING ==> {
                &&& given.error is None <==> flat.error is None
                &&& violations(flat).len() == 0 <==> given.error is None && statement_of(
                    s.requests,
                ).gates.len() > 0
                &&& given.error is None ==> forall|id: u64|
                    #[trigger] given.scope.contains_key(id) ==> {
                        let wire = e.scope[id] as u64;
                        &&& e.scope.contains_key(id)
                        &&& flat.scope.contains_key(wire)
                        &&& flat.scope[wire] == given.scope[id]
                    }
            }
        }),
{
    let read = flattener_reading(modulus);
    let (e, s) = with_messages::<IRFlattener<MemorySink>>(fresh(), idle(), messages, 0);
    let given = with_messages::<PlaintextBackend>(fresh(), plain_state(0), messages, 0);
    lemma_flattener_simulates(modulus);
    lemma_takes_field(modulus);
    assert(fresh().scope.dom() =~= Set::<u64>::empty());
    sim_messages::<IRFlattener<MemorySink>>(
        read,
        idle(),
        (fresh(), plain_state(0)),
        (fresh(), idle()),
        messages,
        0,
    );
    if e.error is None && s.settings[0] == WRITING {
        assert(s != idle());
        let v = statement_of(s.requests);
        assert(started(modulus, s));
        lemma_shape(s.requests);
        messages_give_verdict(v, sink);
        lemma_replay(modulus, s.requests, Seq::empty(), Seq::empty());
        let m = supplied(modulus, s.requests, Seq::empty(), Seq::empty());
        assert(m.instances =~= numbers(v.instances));
        assert(m.witnesses =~= numbers(v.witnesses));
        assert(m == opening(v));
        if given.0.error is None {
            let values = replayed(modulus, s.requests)->Some_0;
            lemma_wires(modulus, s.requests);
            assert forall|id: u64| #[trigger] given.0.scope.contains_key(id) implies {
                let wire = e.scope[id] as u64;
                &&& e.scope.contains_key(id)
                &&& scope_of(values).contains_key(wire)
                &&& scope_of(values)[wire] == given.0.scope[id]
            } by {
                assert(e.scope.dom().contains(id));
                assert((read.value)(s, e.scope[id]) == Some(given.0.scope[id]));
            }
        }
    }
}

/// What a statement that requests are written as looks like.
proof fn lemma_shape(requests: Seq<Request>)
    requires
        requests.len() > 0,
        requests[0] is SetField,
        writable(requests),
    ensures
        simple(statement_of(requests).gates),
        statement_of(requests).header.field_characteristic == requests[0]->modulus,
        statement_of(requests).header.field_degree == requests[0]->degree,
        statement_of(requests).feat_mask == SIMPLE,
        requests[0]->is_boolean ==> statement_of(requests).gate_mask == BOOL,
        !requests[0]->is_boolean ==> statement_of(requests).gate_mask == ARITH,
    decreases requests.len(),
{
    if requests.len() > 1 {
        let front = requests.drop_last();
        assert(writable(front)) by {
            assert forall|i: int| 0 < i < front.len() implies gate_of(
                #[trigger] front[i],
            ) is Some by {
                assert(requests[i] == front[i]);
            }
        }
        assert(front[0] == requests[0]);
        lemma_shape(front);
    }
}

/// Whether a flattener that writes has begun with a field and written gates since.
spec fn proper(s: BackendState) -> bool {
    s.settings[0] == WRITING ==> s.requests.len() > 0 && s.requests[0] is SetField && writable(
        s.requests,
    )
}

/// Whether a relation has no functions and no gates that run others, and says so.
pub open spec fn plain_relation(relation: Relation) -> bool {
    &&& relation.functions@.len() == 0
    &&& simple(gates_of(relation.gates@))
    &&& relation.feat_mask == SIMPLE
}

/// A flattened statement has no functions and no gates that run others, and says so.
pub proof fn flattened_is_simple(messages: Seq<Message>, sink: MemorySink)
    requires
        ({
            let s = with_messages::<IRFlattener<MemorySink>>(fresh(), idle(), messages, 0).1;
            &&& s.settings[0] == WRITING
            &&& sink.received() == statement_of(s.requests).sent_to(nothing_received())
        }),
    ensures
        forall|i: int|
            0 <= i < sink.relations@.len() ==> plain_relation(#[trigger] sink.relations@[i]),
{
    let j = |s: BackendState| proper(s);
    assert forall|s: BackendState, r: Request| j(s) implies j(
        #[trigger] IRFlattener::<MemorySink>::after(s, r),
    ) by {
        let t = flattener_after(s, r);
        if t != s && s.settings[0] == WRITING {
            assert(t.requests[0] == s.requests[0]);
        }
    }
    keeps_messages::<IRFlattener<MemorySink>>(j, fresh(), idle(), messages, 0);
    let s = with_messages::<IRFlattener<MemorySink>>(fresh(), idle(), messages, 0).1;
    let v = statement_of(s.requests);
    lemma_shape(s.requests);
    let lists = pieces(v.gates, MAX_LEN as nat);
    assert(sink.received().relations =~= v.relation_messages(lists));
    assert forall|i: int| 0 <= i < sink.relations@.len() implies plain_relation(
        #[trigger] sink.relations@[i],
    ) by {
        assert(sink.received().relations[i] == sink.relations@[i]@);
        assert(v.relation_messages(lists)[i].gates == lists[i]);
        lemma_pieces_simple(v.gates, MAX_LEN as nat, i);
    }
}

/// A flattened statement is over the field that was asked for first. Its mask says that its
/// gates are Boolean just where that was asked for, and else that they are arithmetic.
pub proof fn flattened_keeps_field(messages: Seq<Message>, sink: MemorySink, i: int)
    requires
        ({
            let s = with_messages::<IRFlattener<MemorySink>>(fresh(), idle(), messages, 0).1;
            &&& s.settings[0] == WRITING
            &&& sink.received() == statement_of(s.requests).sent_to(nothing_received())
        }),
        0 <= i < sink.relations@.len(),
    ensures
        ({
            let s = with_messages::<IRFlattener<MemorySink>>(fresh(), idle(), messages, 0).1;
            let relation = sink.relations@[i];
            &&& s.requests[0] is SetField
            &&& relation.header.field_characteristic@ == s.requests[0]->modulus
            &&& relation.header.field_degree == s.requests[0]->degree
            &&& relation.gate_mask & BOOL == BOOL <==> s.requests[0]->is_boolean
            &&& relation.gate_mask & ARITH == ARITH <==> !s.requests[0]->is_boolean
        }),
{
    let j = |s: BackendState| proper(s);
    assert forall|s: BackendState, r: Request| j(s) implies j(
        #[trigger] IRFlattener::<MemorySink>::after(s, r),
    ) by {
        let t = flattener_after(s, r);
        if t != s && s.settings[0] == WRITING {
            assert(t.requests[0] == s.requests[0]);
        }
    }
    keeps_messages::<IRFlattener<MemorySink>>(j, fresh(), idle(), messages, 0);
    let s = with_messages::<IRFlattener<MemorySink>>(fresh(), idle(), messages, 0).1;
    let v = statement_of(s.requests);
    lemma_shape(s.requests);
    let lists = pieces(v.gates, MAX_LEN as nat);
    assert(sink.received().relations =~= v.relation_messages(lists));
    assert(sink.received().relations[i] == sink.relations@[i]@);
    assert(0x700u16 & 0x700u16 == 0x700u16 && 0xfu16 & 0xfu16 == 0xfu16 && 0x700u16 & 0xfu16
        != 0xfu16 && 0xfu16 & 0x700u16 != 0x700u16) by (bit_vector);
}

} // verus!
