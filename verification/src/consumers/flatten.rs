//! The flattening of whole statements.

use crate::consumers::backend::{BackendState, Request, ZKBackend};
use crate::consumers::evaluator::Evaluator;
use crate::consumers::flattening::{
    flattener_after, no_wire_text, statement_of, IRFlattener, WAITING, WRITING,
};
use crate::consumers::flattening_law::{
    complete, flattened_is_simple, flattening_keeps_meaning, idle, plain_relation,
};
use crate::consumers::invariance::{keeps_gates, keeps_messages};
use crate::consumers::plaintext::{plain_state, PlaintextBackend};
use crate::consumers::semantics::{
    all_defined, fresh, violations, with_message, with_messages, with_relation, Env, EvaluatorV,
    Machine, MAX_NESTING,
};
use crate::consumers::simulation::same_field;
use crate::consumers::statements::{messages_in, nothing_received};
use crate::number::le_value;
use crate::producers::sink::{MemorySink, Sink};
use crate::structs::message::Message;
use crate::structs::relation::{Relation, BOOL};
use vstd::prelude::*;

verus! {

/// What evaluating messages with a flattener comes to, whose sink has got nothing.
pub open spec fn flattened(messages: Seq<Message>) -> (EvaluatorV, BackendState) {
    with_messages::<IRFlattener<MemorySink>>(fresh(), idle(), messages, 0)
}

/// What evaluating messages in plaintext comes to.
pub open spec fn evaluated_plainly(messages: Seq<Message>) -> EvaluatorV {
    with_messages::<PlaintextBackend>(fresh(), plain_state(0), messages, 0).0
}

/// A flattener keeps what its sink had got before.
proof fn lemma_given(messages: Seq<Message>)
    ensures
        flattened(messages).1.given == Some(nothing_received()),
{
    let j = |s: BackendState| s.given == Some(nothing_received());
    assert forall|s: BackendState, r: Request| j(s) implies j(
        #[trigger] IRFlattener::<MemorySink>::after(s, r),
    ) by {
        assert(flattener_after(s, r).given == s.given);
    }
    keeps_messages::<IRFlattener<MemorySink>>(j, fresh(), idle(), messages, 0);
}

/// A flattener that got a relation writes.
proof fn lemma_relation_writes(e: EvaluatorV, s: BackendState, relation: Relation)
    requires
        s.settings[0] == WAITING || s.settings[0] == WRITING,
    ensures
        with_relation::<IRFlattener<MemorySink>>(e, s, relation).1.settings[0] == WRITING,
{
    let is_boolean = relation.gate_mask & BOOL == BOOL;
    let modulus = relation.header.field_characteristic@;
    let request = Request::SetField {
        modulus,
        degree: relation.header.field_degree,
        is_boolean,
    };
    let s1 = flattener_after(s, request);
    let j = |s: BackendState| s.settings[0] == WRITING;
    assert forall|s: BackendState, r: Request| j(s) implies j(
        #[trigger] IRFlattener::<MemorySink>::after(s, r),
    ) by {
        assert(flattener_after(s, r).settings[0] == WRITING);
    }
    keeps_gates::<IRFlattener<MemorySink>>(
        j,
        relation.gates@,
        0,
        Env {
            functions: e.functions + all_defined(relation.functions@),
            modulus: le_value(modulus),
            is_boolean,
        },
        None,
        MAX_NESTING as nat,
        Machine {
            backend: s1,
            scope: e.scope,
            iterators: Map::empty(),
            instances: e.instances,
            witnesses: e.witnesses,
        },
    );
}

/// A flattener that got gates writes.
proof fn lemma_writes(e: EvaluatorV, s: BackendState, messages: Seq<Message>, k: nat)
    requires
        s.settings[0] == WAITING || s.settings[0] == WRITING,
        e.verified ==> s.settings[0] == WRITING,
    ensures
        ({
            let (e1, s1) = with_messages::<IRFlattener<MemorySink>>(e, s, messages, k);
            e1.verified ==> s1.settings[0] == WRITING
        }),
    decreases messages.len() - k,
{
    if k < messages.len() {
        let message = messages[k as int];
        if message is Relation {
            lemma_relation_writes(e, s, message->Relation_0);
        }
        let (e1, s1) = with_message::<IRFlattener<MemorySink>>(e, s, message);
        lemma_writes(e1, s1, messages, k + 1);
    }
}

/// Whether a flattened statement is what a statement states: where all relations are over
/// one prime field and no witness value is missing, evaluating it in plaintext succeeds just
/// where evaluating the statement does, gives the same wires the same values, and gives no
/// violation just where, besides, some gate was written.
pub open spec fn same_meaning(messages: Seq<Message>, sink: MemorySink, modulus: nat) -> bool {
    let (e, s) = flattened(messages);
    let given = evaluated_plainly(messages);
    let flat = evaluated_plainly(messages_in(sink));
    modulus > 0 && same_field(messages, modulus) && complete(s.requests) ==> {
        &&& given.error is None <==> flat.error is None
        &&& violations(flat).len() == 0 <==> given.error is None && statement_of(
            s.requests,
        ).gates.len() > 0
        &&& given.error is None ==> forall|id: u64|
            #[trigger] given.scope.contains_key(id) ==> {
                let wire = e.scope[id] as u64;
                &&& e.scope.contains_key(id)
                &&& flat.scope.contains_key(wire)
                &&& flat.scope[wire] == given.scope[id]
            }
    }
}

/// Writes the circuit of a statement again, without functions, loops and switches. The
/// sink then holds the flattened statement and nothing else: it has no gates that run
/// others, and states what the statement does. Where the circuit cannot be evaluated, the
/// violations say why; where it can be in plaintext, only the wires can run out.
pub fn flatten_messages(messages: &Vec<Message>) -> (r: Result<MemorySink, Vec<String>>)
    ensures
        match r {
            Ok(sink) => {
                &&& violations(flattened(messages@).0).len() == 0
                &&& sink.received() == statement_of(flattened(messages@).1.requests).sent_to(
                    nothing_received(),
                )
                &&& forall|i: int|
                    0 <= i < sink.relations@.len() ==> plain_relation(#[trigger] sink.relations@[i])
                &&& forall|modulus: nat| #[trigger] same_meaning(messages@, sink, modulus)
            },
            Err(list) => {
                &&& list@.len() > 0
                &&& list@.map_values(|s: String| s@) == violations(flattened(messages@).0)
                &&& forall|modulus: nat|
                    modulus > 0 && #[trigger] same_field(messages@, modulus) && complete(
                        flattened(messages@).1.requests,
                    ) && evaluated_plainly(messages@).error is None ==> {
                        let e = flattened(messages@).0;
                        e.error is None || e.error == Some(no_wire_text())
                    }
            },
        },
{
    let sink = MemorySink::default();
    let mut flattener = IRFlattener::new(sink);
    assert(flattener.state() == idle());
    let evaluator = Evaluator::from_messages(messages, &mut flattener);
    let ghost (e, s) = flattened(messages@);
    assert(evaluator@ == e && flattener.state() == s);
    proof {
        lemma_given(messages@);
        lemma_writes(fresh(), idle(), messages@, 0);
    }
    let list = evaluator.get_violations();
    assert(list@.map_values(|s: String| s@).len() == list@.len());
    if list.len() > 0 {
        proof {
            assert forall|modulus: nat|
                modulus > 0 && #[trigger] same_field(messages@, modulus) && complete(s.requests)
                    && evaluated_plainly(messages@).error is None implies e.error is None || e.error
                == Some(no_wire_text()) by {
                if e.error is Some {
                    flattening_keeps_meaning(messages@, modulus, arbitrary());
                }
            }
        }
        return Err(list);
    }
    assert(s.settings[0] == WRITING);
    let after = flattener.finish();
    proof {
        flattened_is_simple(messages@, after);
        assert forall|modulus: nat| #[trigger] same_meaning(messages@, after, modulus) by {
            if modulus > 0 && same_field(messages@, modulus) && complete(s.requests) {
                flattening_keeps_meaning(messages@, modulus, after);
            }
        }
    }
    Ok(after)
}

} // verus!
