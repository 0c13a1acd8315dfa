//! Converting the messages of a statement in constraints keeps what they state.

use crate::consumers::plaintext::{plain_state, PlaintextBackend};
use crate::consumers::semantics::{fresh, violations, with_messages};
use crate::consumers::statements::{messages_in, nothing_received};
use crate::number::le_value;
use crate::producers::builder::StatementV;
use crate::producers::from_r1cs::{
    conversion_of, convertible, first_header, prepared, ConversionV,
};
use crate::producers::from_r1cs_law::{
    all_values, circuit_keeps_meaning, met_from, order_does_not_matter,
};
use crate::producers::from_r1cs_refusal::wires_stay;
use crate::producers::sink::{MemorySink, Sink};
use crate::structs::r1cs::{witness_ids, BilinearConstraint, R1csMessage, VariableV};
use vstd::prelude::*;

verus! {

/// The header that decides is the first one among the messages. None is found just where none
/// of them is a header.
pub proof fn first_header_decides(messages: Seq<R1csMessage>, k: nat)
    requires
        k <= messages.len(),
    ensures
        match first_header(messages, k) {
            Some(header) => exists|i: int|
                k <= i < messages.len() && #[trigger] messages[i] == R1csMessage::Header(header)
                    && forall|j: int| k <= j < i ==> !(#[trigger] messages[j] is Header),
            None => forall|i: int| k <= i < messages.len() ==> !(#[trigger] messages[i] is Header),
        },
    decreases messages.len() - k,
{
    if k < messages.len() && !(messages[k as int] is Header) {
        first_header_decides(messages, k + 1);
        if first_header(messages, k + 1) is Some {
            let header = first_header(messages, k + 1)->Some_0;
            let i = choose|i: int|
                k + 1 <= i < messages.len() && #[trigger] messages[i] == R1csMessage::Header(header)
                    && forall|j: int| k + 1 <= j < i ==> !(#[trigger] messages[j] is Header);
            assert(messages[i] == R1csMessage::Header(header));
            assert(forall|j: int| k <= j < i ==> !(#[trigger] messages[j] is Header));
        }
    } else if k < messages.len() {
        assert(messages[k as int] == R1csMessage::Header(messages[k as int]->Header_0));
    }
}

/// All constraints of the messages from the `k`-th on, in order.
pub open spec fn constraints_in(messages: Seq<R1csMessage>, k: nat) -> Seq<BilinearConstraint>
    decreases messages.len() - k,
{
    if k >= messages.len() {
        Seq::empty()
    } else {
        let rest = constraints_in(messages, k + 1);
        match messages[k as int] {
            R1csMessage::Constraints(system) => system.constraints@ + rest,
            _ => rest,
        }
    }
}

/// All private values of the messages from the `k`-th on, in order.
pub open spec fn privates_in(messages: Seq<R1csMessage>, k: nat) -> Seq<VariableV>
    decreases messages.len() - k,
{
    if k >= messages.len() {
        Seq::empty()
    } else {
        let rest = privates_in(messages, k + 1);
        match messages[k as int] {
            R1csMessage::Witness(w) => w.assigned_variables@.split() + rest,
            _ => rest,
        }
    }
}

proof fn lemma_assignments_join(c: ConversionV, a: Seq<VariableV>, b: Seq<VariableV>, k: nat)
    requires
        k <= a.len(),
    ensures
        c.assignments(a, k).1 is Ok ==> c.assignments(a + b, k) == c.assignments(a, k).0.assignments(
            b,
            0,
        ),
    decreases a.len() - k,
{
    let all = a + b;
    if k < a.len() {
        assert(all[k as int] == a[k as int]);
        if c.wires.contains_key(a[k as int].id) {
            let next = ConversionV {
                statement: c.statement.with_witness_value(a[k as int].value),
                ..c
            };
            lemma_assignments_join(next, a, b, k + 1);
        }
    } else {
        lemma_assignments_shift(c, a, b, 0);
    }
}

proof fn lemma_assignments_shift(c: ConversionV, a: Seq<VariableV>, b: Seq<VariableV>, j: nat)
    ensures
        c.assignments(a + b, a.len() + j) == c.assignments(b, j),
    decreases b.len() - j,
{
    let all = a + b;
    if j < b.len() {
        assert(all[a.len() as int + j] == b[j as int]);
        if c.wires.contains_key(b[j as int].id) {
            let next = ConversionV {
                statement: c.statement.with_witness_value(b[j as int].value),
                ..c
            };
            lemma_assignments_shift(next, a, b, j + 1);
        }
    }
}

proof fn lemma_constraints_join(
    c: ConversionV,
    a: Seq<BilinearConstraint>,
    b: Seq<BilinearConstraint>,
    k: nat,
)
    requires
        k <= a.len(),
    ensures
        c.constraints(a, k).1 is Ok ==> c.constraints(a + b, k) == c.constraints(a, k).0.constraints(
            b,
            0,
        ),
    decreases a.len() - k,
{
    let all = a + b;
    if k < a.len() {
        assert(all[k as int] == a[k as int]);
        let (next, r) = c.constraint(a[k as int]@);
        if r is Ok {
            lemma_constraints_join(next, a, b, k + 1);
        }
    } else {
        lemma_constraints_shift(c, a, b, 0);
    }
}

proof fn lemma_constraints_shift(
    c: ConversionV,
    a: Seq<BilinearConstraint>,
    b: Seq<BilinearConstraint>,
    j: nat,
)
    ensures
        c.constraints(a + b, a.len() + j) == c.constraints(b, j),
    decreases b.len() - j,
{
    let all = a + b;
    if j < b.len() {
        assert(all[a.len() as int + j] == b[j as int]);
        let (next, r) = c.constraint(b[j as int]@);
        if r is Ok {
            lemma_constraints_shift(next, a, b, j + 1);
        }
    }
}

/// Whether private values are accepted depends on the wires of variables alone.
proof fn lemma_accepted(c: ConversionV, d: ConversionV, list: Seq<VariableV>, k: nat)
    requires
        c.wires == d.wires,
    ensures
        c.assignments(list, k).1 is Ok == d.assignments(list, k).1 is Ok,
    decreases list.len() - k,
{
    if k < list.len() && c.wires.contains_key(list[k as int].id) {
        lemma_accepted(
            ConversionV {
                statement: c.statement.with_witness_value(list[k as int].value),
                ..c
            },
            ConversionV {
                statement: d.statement.with_witness_value(list[k as int].value),
                ..d
            },
            list,
            k + 1,
        );
    }
}

/// Messages that a conversion accepts leave what all their private values, then all their
/// constraints leave.
proof fn lemma_fed(c: ConversionV, messages: Seq<R1csMessage>, k: nat)
    requires
        k <= messages.len(),
        c.fed(messages, k).1 is Ok,
    ensures
        ({
            let (c1, r1) = c.assignments(privates_in(messages, k), 0);
            let (c2, r2) = c1.constraints(constraints_in(messages, k), 0);
            &&& r1 is Ok
            &&& r2 is Ok
            &&& c2 == c.fed(messages, k).0
        }),
    decreases messages.len() - k,
{
    if k < messages.len() {
        let g = privates_in(messages, k + 1);
        let l = constraints_in(messages, k + 1);
        match messages[k as int] {
            R1csMessage::Constraints(system) => {
                let own = system.constraints@;
                let d = c.constraints(own, 0).0;
                lemma_fed(d, messages, k + 1);
                wires_stay(c, g, own);
                lemma_accepted(c, d, g, 0);
                order_does_not_matter(c, g, own);
                let c1 = c.assignments(g, 0).0;
                assert(d.assignments(g, 0).0 == c1.constraints(own, 0).0);
                lemma_constraints_join(c1, own, l, 0);
            },
            R1csMessage::Witness(w) => {
                let own = w.assigned_variables@.split();
                let d = c.assignments(own, 0).0;
                lemma_fed(d, messages, k + 1);
                lemma_assignments_join(c, own, g, 0);
            },
            _ => {
                lemma_fed(c, messages, k + 1);
            },
        }
    }
}

/// The messages of a statement in constraints are written as a circuit that states the same.
/// Evaluating it in plaintext gives no violation just where the values of the instance
/// variables, as the first header lists them, and all private values meet all constraints of
/// all messages modulo the characteristic, in whatever order the messages come. The private
/// values are to come in the order of the numbers of their variables.
pub proof fn conversion_keeps_meaning(messages: Seq<R1csMessage>, sink: MemorySink)
    requires
        conversion_of(messages) is Ok,
        first_header(messages, 0) matches Some(header) && privates_in(messages, 0).map_values(
            |v: VariableV| v.id,
        ) == witness_ids(header.instance_variables@.ids, header.free_variable_id),
        sink.received() == conversion_of(messages)->Ok_0.sent_to(nothing_received()),
    ensures
        first_header(messages, 0) matches Some(header) ==> (violations(
            with_messages::<PlaintextBackend>(
                fresh(),
                plain_state(0),
                messages_in(sink),
                0,
            ).0,
        ).len() == 0 <==> met_from(
            constraints_in(messages, 0),
            0,
            all_values(header.instance_variables@, privates_in(messages, 0)),
            le_value(header.field_maximum->Some_0@) + 1,
        )),
{
    let header = first_header(messages, 0)->Some_0;
    assert(convertible(header));
    let p = prepared(
        header.instance_variables@,
        header.free_variable_id,
        header.field_maximum->Some_0@,
    );
    lemma_fed(p, messages, 0);
    let given = privates_in(messages, 0);
    assert(given.map_values(|v: VariableV| v.id).len() == given.len());
    circuit_keeps_meaning(
        header.instance_variables@,
        header.free_variable_id,
        header.field_maximum->Some_0@,
        given,
        constraints_in(messages, 0),
        sink,
    );
}

/// Messages are converted only where there is a header among them, and a circuit can be
/// prepared for the first one.
pub proof fn conversion_needs_a_header(messages: Seq<R1csMessage>)
    ensures
        conversion_of(messages) is Ok ==> {
            &&& first_header(messages, 0) is Some
            &&& convertible(first_header(messages, 0)->Some_0)
        },
        (forall|i: int| 0 <= i < messages.len() ==> !(#[trigger] messages[i] is Header))
            ==> conversion_of(messages) is Err,
{
    first_header_decides(messages, 0);
}

/// Messages are refused where the first header does not say what the largest element of the
/// field is, or lists variable zero with a value other than one.
pub proof fn bad_headers_are_refused(messages: Seq<R1csMessage>, i: int)
    requires
        first_header(messages, 0) is Some,
        ({
            let header = first_header(messages, 0)->Some_0;
            let list = header.instance_variables@.split();
            header.field_maximum is None || (0 <= i < list.len() && list[i].id == 0 && le_value(
                list[i].value,
            ) != 1)
        }),
    ensures
        conversion_of(messages) is Err,
{
}

/// Private values are accepted just where each of them is of a variable that stands on a wire.
/// They are then appended, in order, to the witness values, and nothing else changes.
pub proof fn private_values_need_wires(c: ConversionV, list: Seq<VariableV>, k: nat)
    requires
        k <= list.len(),
    ensures
        ({
            let (d, r) = c.assignments(list, k);
            let before = c.statement.witnesses;
            let after = d.statement.witnesses;
            &&& r is Ok <==> forall|i: int|
                k <= i < list.len() ==> c.wires.contains_key((#[trigger] list[i]).id)
            &&& r is Ok ==> {
                &&& after.len() == before.len() + (list.len() - k)
                &&& forall|i: int| 0 <= i < before.len() ==> #[trigger] after[i] == before[i]
                &&& forall|i: int|
                    k <= i < list.len() ==> after[before.len() + (i - k)] == (#[trigger] list[i]).value
                &&& d.statement == (StatementV { witnesses: after, ..c.statement })
            }
            &&& d.wires == c.wires
        }),
    decreases list.len() - k,
{
    if k < list.len() && c.wires.contains_key(list[k as int].id) {
        let next = ConversionV {
            statement: c.statement.with_witness_value(list[k as int].value),
            ..c
        };
        private_values_need_wires(next, list, k + 1);
        let (d, r) = next.assignments(list, k + 1);
        if r is Ok {
            let before = c.statement.witnesses;
            let after = d.statement.witnesses;
            let pushed = next.statement.witnesses;
            assert forall|i: int| 0 <= i < before.len() implies #[trigger] after[i] == before[i] by {
                assert(after[i] == pushed[i]);
            }
            assert forall|i: int| k <= i < list.len() implies after[before.len() + (i - k)] == (
            #[trigger] list[i]).value by {
                if i == k {
                    assert(after[before.len() as int] == pushed[before.len() as int]);
                }
            }
        }
    }
}

} // verus!
