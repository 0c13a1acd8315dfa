//! What messages do to an evaluation.

use crate::consumers::backend::{BackendState, Request, ZKBackend};
use crate::consumers::invariance::refused_once;
use crate::consumers::plaintext::{plain_state, PlaintextBackend};
use crate::consumers::semantics::{
    all_defined, defined, enqueued, fresh, known, run_gates, violations, with_instance,
    with_message, with_messages, with_relation, with_witness, Env, EvaluatorV, FunctionV, Machine,
    Text, MAX_NESTING,
};
use crate::number::le_value;
use crate::structs::function::Function;
use crate::structs::instance::Instance;
use crate::structs::message::Message;
use crate::structs::relation::{Relation, BOOL};
use crate::structs::wire::Value;
use crate::structs::witness::Witness;
use vstd::prelude::*;

verus! {

/// Whether a list begins with another one and goes on with the numbers that values stand for,
/// in order.
pub open spec fn followed_by(list: Seq<nat>, before: Seq<nat>, values: Seq<Value>) -> bool {
    &&& list.len() == before.len() + values.len()
    &&& forall|i: int| 0 <= i < before.len() ==> #[trigger] list[i] == before[i]
    &&& forall|i: int|
        0 <= i < values.len() ==> list[before.len() + i] == le_value((#[trigger] values[i])@)
}

proof fn lemma_enqueued(queue: Seq<nat>, values: Seq<Value>, k: nat, before: Seq<nat>)
    requires
        k <= values.len(),
        followed_by(queue, before, values.take(k as int)),
    ensures
        enqueued::<PlaintextBackend>(queue, values, k).1 is Ok,
        followed_by(enqueued::<PlaintextBackend>(queue, values, k).0, before, values),
    decreases values.len() - k,
{
    if k < values.len() {
        let next = queue.push(le_value(values[k as int]@));
        let taken = values.take(k as int);
        let more = values.take(k as int + 1);
        assert forall|i: int| 0 <= i < more.len() implies next[before.len() + i] == le_value(
            (#[trigger] more[i])@,
        ) by {
            if i < k {
                assert(more[i] == taken[i]);
            }
        }
        lemma_enqueued(next, values, k + 1, before);
    } else {
        assert(values.take(k as int) =~= values);
    }
}

/// In plaintext an instance is accepted. Its values come, in order, behind those that no gate
/// has taken yet, and all else but the characteristic stays.
pub proof fn instance_values_queue_up(e: EvaluatorV, instance: Instance)
    ensures
        ({
            let (e1, r) = with_instance::<PlaintextBackend>(e, instance);
            &&& r is Ok
            &&& followed_by(e1.instances, e.instances, instance.common_inputs@)
            &&& e1 == (EvaluatorV { instances: e1.instances, modulus: e1.modulus, ..e })
            &&& e1.modulus == le_value(instance.header.field_characteristic@)
        }),
{
    assert(instance.common_inputs@.take(0) =~= Seq::empty());
    lemma_enqueued(e.instances, instance.common_inputs@, 0, e.instances);
}

/// In plaintext a witness is accepted. Its values come, in order, behind those that no gate
/// has taken yet, and all else but the characteristic stays.
pub proof fn witness_values_queue_up(e: EvaluatorV, witness: Witness)
    ensures
        ({
            let (e1, r) = with_witness::<PlaintextBackend>(e, witness);
            &&& r is Ok
            &&& followed_by(e1.witnesses, e.witnesses, witness.short_witness@)
            &&& e1 == (EvaluatorV { witnesses: e1.witnesses, modulus: e1.modulus, ..e })
            &&& e1.modulus == le_value(witness.header.field_characteristic@)
        }),
{
    assert(witness.short_witness@.take(0) =~= Seq::empty());
    lemma_enqueued(e.witnesses, witness.short_witness@, 0, e.witnesses);
}

/// An evaluation has nothing to complain of just where it got a gate and refused nothing. It
/// complains of each of these at most once, and gives the words of a refusal last.
pub proof fn complaints(e: EvaluatorV)
    ensures
        violations(e).len() == 0 <==> e.verified && e.error is None,
        violations(e).len() == (if e.verified {
            0int
        } else {
            1
        }) + (if e.error is Some {
            1int
        } else {
            0
        }),
        e.error is Some ==> violations(e).last() == e.error->Some_0,
{
}

/// Messages that follow others do what they do from where these end.
pub proof fn messages_follow_messages<B: ZKBackend>(
    e: EvaluatorV,
    s: BackendState,
    first: Seq<Message>,
    second: Seq<Message>,
    k: nat,
)
    requires
        k <= first.len(),
    ensures
        ({
            let (e1, s1) = with_messages::<B>(e, s, first, k);
            with_messages::<B>(e, s, first + second, k) == with_messages::<B>(e1, s1, second, 0)
        }),
    decreases first.len() - k,
{
    let all = first + second;
    if k < first.len() {
        assert(all[k as int] == first[k as int]);
        let (e1, s1) = with_message::<B>(e, s, first[k as int]);
        messages_follow_messages::<B>(e1, s1, first, second, k + 1);
    } else {
        lemma_shifted::<B>(e, s, first, second, 0);
    }
}

proof fn lemma_shifted<B: ZKBackend>(
    e: EvaluatorV,
    s: BackendState,
    first: Seq<Message>,
    second: Seq<Message>,
    j: nat,
)
    ensures
        with_messages::<B>(e, s, first + second, first.len() + j) == with_messages::<B>(
            e,
            s,
            second,
            j,
        ),
    decreases second.len() - j,
{
    let all = first + second;
    if j < second.len() {
        assert(all[first.len() as int + j] == second[j as int]);
        let (e1, s1) = with_message::<B>(e, s, second[j as int]);
        lemma_shifted::<B>(e1, s1, first, second, j + 1);
    }
}

/// Once a message is refused the words of its refusal stay, and nothing changes any more.
pub proof fn refusal_is_final<B: ZKBackend>(
    e: EvaluatorV,
    s: BackendState,
    first: Seq<Message>,
    second: Seq<Message>,
)
    requires
        with_messages::<B>(e, s, first, 0).0.error is Some,
    ensures
        with_messages::<B>(e, s, first + second, 0) == with_messages::<B>(e, s, first, 0),
{
    messages_follow_messages::<B>(e, s, first, second, 0);
    let (e1, s1) = with_messages::<B>(e, s, first, 0);
    refused_once::<B>(e1, s1, second, 0);
}

/// Once the field of a relation is accepted there is a gate to verify if there was one before
/// or it has one, and its functions are known besides those that were. The latest function of
/// a name is the one that is known by it.
pub proof fn relations_add_functions<B: ZKBackend>(
    e: EvaluatorV,
    s: BackendState,
    relation: Relation,
    i: int,
)
    requires
        with_relation::<B>(e, s, relation).2 is Ok,
        0 <= i < relation.functions@.len(),
        forall|j: int|
            i < j < relation.functions@.len() ==> (#[trigger] relation.functions@[j]).name@
                != relation.functions@[i].name@,
    ensures
        ({
            let e1 = with_relation::<B>(e, s, relation).0;
            &&& e1.verified <==> e.verified || relation.gates@.len() > 0
            &&& e1.functions.len() == e.functions.len() + relation.functions@.len()
            &&& known(e1.functions, relation.functions@[i].name@) == Some(
                defined(relation.functions@[i]),
            )
        }),
{
    let f = relation.functions@[i];
    let own = all_defined(relation.functions@);
    let all = e.functions + own;
    let at = e.functions.len() + i;
    assert(all[at] == own[i]);
    assert(own[i] == defined(f));
    assert forall|j: int| at < j < all.len() implies (#[trigger] all[j]).name != f.name@ by {
        let n = j - e.functions.len();
        assert(all[j] == own[n]);
        assert(own[n] == defined(relation.functions@[n]));
    }
    lemma_latest(all, f.name@, at);
}

proof fn lemma_latest(
    functions: Seq<FunctionV>,
    name: Text,
    at: int,
)
    requires
        0 <= at < functions.len(),
        functions[at].name == name,
        forall|j: int| at < j < functions.len() ==> (#[trigger] functions[j]).name != name,
    ensures
        known(functions, name) == Some(functions[at]),
    decreases functions.len(),
{
    let n = functions.len() - 1;
    if at < n {
        assert(functions[n].name != name);
        let before = functions.drop_last();
        assert forall|j: int| at < j < before.len() implies (#[trigger] before[j]).name != name by {
            assert(functions[j] == before[j]);
        }
        lemma_latest(before, name, at);
    }
}

/// What is known of a function is what it was defined with.
pub proof fn definitions_are_kept(f: Function)
    ensures
        defined(f).name == f.name@,
        defined(f).body == f.body@,
        defined(f).instance_nbr == f.instance_count,
        defined(f).witness_nbr == f.witness_count,
        defined(f).output_count == f.output_count,
        defined(f).input_count == f.input_count,
{
}

/// The gates of a relation count as Boolean just where its mask has every bit of the Boolean
/// gates.
pub proof fn masks_decide_the_kind<B: ZKBackend>(
    e: EvaluatorV,
    s: BackendState,
    relation: Relation,
)
    ensures
        with_relation::<B>(e, s, relation).0.is_boolean <==> relation.gate_mask | BOOL
            == relation.gate_mask,
        with_relation::<B>(e, s, relation).0.modulus == le_value(
            relation.header.field_characteristic@,
        ),
{
    let mask = relation.gate_mask;
    assert((mask & 0x700u16 == 0x700u16) == (mask | 0x700u16 == mask)) by (bit_vector);
}

/// Once its field is accepted a relation does what its gates do, from the wires and the values
/// that are there, with its functions known besides those that were. Its gates stand in no
/// branch, and no iterator is running.
pub proof fn relations_run_their_gates<B: ZKBackend>(
    e: EvaluatorV,
    s: BackendState,
    relation: Relation,
)
    ensures
        ({
            let is_boolean = relation.gate_mask | BOOL == relation.gate_mask;
            let field = Request::SetField {
                modulus: relation.header.field_characteristic@,
                degree: relation.header.field_degree,
                is_boolean,
            };
            let (e1, s1, r) = with_relation::<B>(e, s, relation);
            let (m, own) = run_gates::<B>(
                relation.gates@,
                0,
                Env {
                    functions: e.functions + all_defined(relation.functions@),
                    modulus: le_value(relation.header.field_characteristic@),
                    is_boolean,
                },
                None,
                MAX_NESTING as nat,
                Machine {
                    backend: B::after(s, field),
                    scope: e.scope,
                    iterators: Map::empty(),
                    instances: e.instances,
                    witnesses: e.witnesses,
                },
            );
            &&& B::answer(s, field) is Err ==> r is Err && e1.scope == e.scope && e1.verified
                == e.verified
            &&& B::answer(s, field) is Ok ==> {
                &&& r is Ok <==> own is Ok
                &&& e1.scope == m.scope
                &&& e1.instances == m.instances
                &&& e1.witnesses == m.witnesses
                &&& s1 == m.backend
            }
        }),
{
    let mask = relation.gate_mask;
    assert((mask & 0x700u16 == 0x700u16) == (mask | 0x700u16 == mask)) by (bit_vector);
}

/// In plaintext a relation without gates is accepted just where its field has degree one and a
/// characteristic above zero. It then changes nothing but the functions that are known and the
/// field.
pub proof fn fields_are_accepted(e: EvaluatorV, s: BackendState, relation: Relation)
    requires
        relation.gates@.len() == 0,
    ensures
        ({
            let (e1, s1, r) = with_relation::<PlaintextBackend>(e, s, relation);
            let p = le_value(relation.header.field_characteristic@);
            &&& r is Ok <==> p > 0 && relation.header.field_degree == 1
            &&& r is Ok ==> s1 == plain_state(p)
            &&& e1.scope == e.scope
            &&& e1.instances == e.instances
            &&& e1.witnesses == e.witnesses
            &&& e1.verified == e.verified
        }),
{
}

/// An evaluation that no message has reached has no wires and no values, and complains that
/// there is nothing to verify.
pub proof fn nothing_is_not_verified()
    ensures
        violations(fresh()).len() == 1,
        forall|id: u64| !(#[trigger] fresh().scope.contains_key(id)),
        fresh().instances.len() == 0,
        fresh().witnesses.len() == 0,
        forall|name: Text| (#[trigger] known(fresh().functions, name)) is None,
{
}

} // verus!
