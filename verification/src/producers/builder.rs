//! The writing of statements, one gate at a time.

use crate::producers::build_gates::{BuildGate, BuildGateV, NO_OUTPUT};
use crate::producers::sink::{Sink, SinkV};
use crate::structs::gate::{gates_of, Gate, GateV};
use crate::structs::header::{Header, HeaderV};
use crate::structs::instance::{Instance, InstanceV};
use crate::structs::relation::{Relation, RelationV};
use crate::structs::wire::{bytes_of, Value, WireId};
use crate::structs::witness::{Witness, WitnessV};
use vstd::prelude::*;

verus! {

/// How many values or gates go into a message.
pub const MAX_LEN: usize = 100_000;

/// A list cut into pieces of a given length, the last of which may be shorter.
pub open spec fn pieces<T>(list: Seq<T>, size: nat) -> Seq<Seq<T>>
    decreases list.len(),
{
    if list.len() == 0 || size == 0 {
        Seq::empty()
    } else if list.len() <= size {
        seq![list]
    } else {
        seq![list.take(size as int)] + pieces(list.skip(size as int), size)
    }
}

/// A statement under construction.
#[verifier::ext_equal]
pub struct StatementV {
    pub header: HeaderV,
    pub gate_mask: u16,
    pub feat_mask: u16,
    /// The instance values, in order.
    pub instances: Seq<Seq<u8>>,
    /// The witness values, in order.
    pub witnesses: Seq<Seq<u8>>,
    /// The gates, in order.
    pub gates: Seq<GateV>,
    /// The first wire that no gate writes to.
    pub free_id: nat,
}

/// A statement without gates.
pub open spec fn empty_statement(header: HeaderV, gate_mask: u16, feat_mask: u16) -> StatementV {
    StatementV {
        header,
        gate_mask,
        feat_mask,
        instances: Seq::empty(),
        witnesses: Seq::empty(),
        gates: Seq::empty(),
        free_id: 0,
    }
}

impl StatementV {
    /// The statement with one more gate. It writes to the first free wire, if it
    /// writes to one at all. A value that comes with an instance or witness gate is
    /// appended to the values of its kind.
    pub open spec fn with_gate(self, g: BuildGateV) -> StatementV {
        StatementV {
            instances: match g {
                BuildGateV::Instance(Some(value)) => self.instances.push(value),
                _ => self.instances,
            },
            witnesses: match g {
                BuildGateV::Witness(Some(value)) => self.witnesses.push(value),
                _ => self.witnesses,
            },
            gates: self.gates.push(
                g.writing_to(
                    if g.writes() {
                        self.free_id as u64
                    } else {
                        NO_OUTPUT
                    },
                ),
            ),
            free_id: if g.writes() {
                self.free_id + 1
            } else {
                self.free_id
            },
            ..self
        }
    }

    /// The statement with one more witness value.
    pub open spec fn with_witness_value(self, value: Seq<u8>) -> StatementV {
        StatementV { witnesses: self.witnesses.push(value), ..self }
    }

    /// The messages that instance values are sent in.
    pub open spec fn instance_messages(self, list: Seq<Seq<Seq<u8>>>) -> Seq<InstanceV> {
        list.map_values(|p: Seq<Seq<u8>>| InstanceV { header: self.header, common_inputs: p })
    }

    /// The messages that witness values are sent in.
    pub open spec fn witness_messages(self, list: Seq<Seq<Seq<u8>>>) -> Seq<WitnessV> {
        list.map_values(|p: Seq<Seq<u8>>| WitnessV { header: self.header, short_witness: p })
    }

    /// The messages that gates are sent in.
    pub open spec fn relation_messages(self, list: Seq<Seq<GateV>>) -> Seq<RelationV> {
        list.map_values(
            |p: Seq<GateV>|
                RelationV {
                    header: self.header,
                    gate_mask: self.gate_mask,
                    feat_mask: self.feat_mask,
                    functions: Seq::empty(),
                    gates: p,
                },
        )
    }

    /// What a sink has got once the statement was sent to it.
    pub open spec fn sent_to(self, sink: SinkV) -> SinkV {
        SinkV {
            instances: sink.instances + self.instance_messages(
                pieces(self.instances, MAX_LEN as nat),
            ),
            witnesses: sink.witnesses + self.witness_messages(
                pieces(self.witnesses, MAX_LEN as nat),
            ),
            relations: sink.relations + self.relation_messages(pieces(self.gates, MAX_LEN as nat)),
        }
    }
}

/// One more piece after full ones is one more piece of the whole.
proof fn lemma_pieces<T>(full: Seq<T>, last: Seq<T>, size: nat)
    requires
        size > 0,
        full.len() % size == 0,
        last.len() <= size,
    ensures
        pieces(full + last, size) == (if last.len() == 0 {
            pieces(full, size)
        } else {
            pieces(full, size).push(last)
        }),
    decreases full.len(),
{
    let whole = full + last;
    if full.len() == 0 {
        assert(whole =~= last);
        assert(pieces(whole, size) =~= if last.len() == 0 {
            pieces(full, size)
        } else {
            pieces(full, size).push(last)
        });
    } else {
        assert(full.len() >= size) by (nonlinear_arith)
            requires
                full.len() % size == 0,
                full.len() > 0,
                size > 0,
        ;
        let rest = full.skip(size as int);
        assert(rest.len() % size == 0) by {
            vstd::arithmetic::div_mod::lemma_mod_sub_multiples_vanish(
                full.len() as int,
                size as int,
            );
        }
        lemma_pieces(rest, last, size);
        if last.len() == 0 {
            assert(whole =~= full);
        } else {
            assert(whole.take(size as int) =~= full.take(size as int));
            assert(whole.skip(size as int) =~= rest + last);
            if full.len() == size {
                assert(rest =~= Seq::empty());
                assert(full.take(size as int) =~= full);
                assert(pieces(rest, size) =~= Seq::empty());
                assert(pieces(whole, size) =~= pieces(full, size).push(last));
            } else {
                assert(pieces(whole, size) =~= pieces(full, size).push(last));
            }
        }
    }
}

/// Writes a statement to a sink, one gate at a time. Values and gates are gathered
/// and sent in messages of `MAX_LEN`.
pub struct GateBuilder<S: Sink> {
    sink: S,
    header: Header,
    gate_mask: u16,
    feat_mask: u16,
    instances: Vec<Value>,
    witnesses: Vec<Value>,
    gates: Vec<Gate>,
    free_id: WireId,
    origin: Ghost<SinkV>,
    sent: Ghost<StatementV>,
}

impl<S: Sink> View for GateBuilder<S> {
    type V = StatementV;

    closed spec fn view(&self) -> StatementV {
        StatementV {
            header: self.header@,
            gate_mask: self.gate_mask,
            feat_mask: self.feat_mask,
            instances: self.sent@.instances + bytes_of(self.instances@),
            witnesses: self.sent@.witnesses + bytes_of(self.witnesses@),
            gates: self.sent@.gates + gates_of(self.gates@),
            free_id: self.free_id as nat,
        }
    }
}

impl<S: Sink> GateBuilder<S> {
    /// What is in the sink are the full messages of what was sent.
    pub closed spec fn wf(&self) -> bool {
        &&& self.sent@.header == self.header@
        &&& self.sent@.gate_mask == self.gate_mask
        &&& self.sent@.feat_mask == self.feat_mask
        &&& self.instances@.len() < MAX_LEN
        &&& self.witnesses@.len() < MAX_LEN
        &&& self.gates@.len() < MAX_LEN
        &&& self.sent@.instances.len() % (MAX_LEN as nat) == 0
        &&& self.sent@.witnesses.len() % (MAX_LEN as nat) == 0
        &&& self.sent@.gates.len() % (MAX_LEN as nat) == 0
        &&& self.sink.received() == self.sent@.sent_to(self.origin@)
    }

    /// What the sink had got before.
    pub closed spec fn sink_before(&self) -> SinkV {
        self.origin@
    }

    /// Starts a statement.
    pub fn new(sink: S, header: Header, gate_mask: u16, feat_mask: u16) -> (r: Self)
        ensures
            r.wf(),
            r.sink_before() == sink.received(),
            r@ == empty_statement(header@, gate_mask, feat_mask),
    {
        let ghost nothing = empty_statement(header@, gate_mask, feat_mask);
        let r = GateBuilder {
            origin: Ghost(sink.received()),
            sent: Ghost(nothing),
            sink,
            header,
            gate_mask,
            feat_mask,
            instances: Vec::new(),
            witnesses: Vec::new(),
            gates: Vec::new(),
            free_id: 0,
        };
        assert(r@ =~= nothing);
        assert(nothing.sent_to(r.origin@) =~= r.origin@);
        r
    }

    fn flush_instance(&mut self)
        requires
            old(self).sent@.header == old(self).header@,
            old(self).sent@.instances.len() % (MAX_LEN as nat) == 0,
            0 < old(self).instances@.len() <= MAX_LEN,
            old(self).sink.received() == old(self).sent@.sent_to(old(self).origin@),
        ensures
            final(self).instances@.len() == 0,
            final(self).sent@ == (StatementV {
                instances: old(self).sent@.instances + bytes_of(old(self).instances@),
                ..old(self).sent@
            }),
            final(self).sink.received() == final(self).sent@.sent_to(final(self).origin@),
            *final(self) == (GateBuilder {
                instances: final(self).instances,
                sent: final(self).sent,
                sink: final(self).sink,
                ..*old(self)
            }),
    {
        let mut common_inputs: Vec<Value> = Vec::new();
        std::mem::swap(&mut common_inputs, &mut self.instances);
        let ghost values = bytes_of(common_inputs@);
        proof {
            lemma_pieces(self.sent@.instances, values, MAX_LEN as nat);
        }
        let ghost before = self.sent@;
        self.sent = Ghost(StatementV { instances: before.instances + values, ..before });
        self.sink.push_instance_message(Instance { header: self.header.clone(), common_inputs });
        assert(self.sink.received() =~= self.sent@.sent_to(self.origin@));
    }

    fn flush_witness(&mut self)
        requires
            old(self).sent@.header == old(self).header@,
            old(self).sent@.witnesses.len() % (MAX_LEN as nat) == 0,
            0 < old(self).witnesses@.len() <= MAX_LEN,
            old(self).sink.received() == old(self).sent@.sent_to(old(self).origin@),
        ensures
            final(self).witnesses@.len() == 0,
            final(self).sent@ == (StatementV {
                witnesses: old(self).sent@.witnesses + bytes_of(old(self).witnesses@),
                ..old(self).sent@
            }),
            final(self).sink.received() == final(self).sent@.sent_to(final(self).origin@),
            *final(self) == (GateBuilder {
                witnesses: final(self).witnesses,
                sent: final(self).sent,
                sink: final(self).sink,
                ..*old(self)
            }),
    {
        let mut short_witness: Vec<Value> = Vec::new();
        std::mem::swap(&mut short_witness, &mut self.witnesses);
        let ghost values = bytes_of(short_witness@);
        proof {
            lemma_pieces(self.sent@.witnesses, values, MAX_LEN as nat);
        }
        let ghost before = self.sent@;
        self.sent = Ghost(StatementV { witnesses: before.witnesses + values, ..before });
        self.sink.push_witness_message(Witness { header: self.header.clone(), short_witness });
        assert(self.sink.received() =~= self.sent@.sent_to(self.origin@));
    }

    fn flush_relation(&mut self)
        requires
            old(self).sent@.header == old(self).header@,
            old(self).sent@.gate_mask == old(self).gate_mask,
            old(self).sent@.feat_mask == old(self).feat_mask,
            old(self).sent@.gates.len() % (MAX_LEN as nat) == 0,
            0 < old(self).gates@.len() <= MAX_LEN,
            old(self).sink.received() == old(self).sent@.sent_to(old(self).origin@),
        ensures
            final(self).gates@.len() == 0,
            final(self).sent@ == (StatementV {
                gates: old(self).sent@.gates + gates_of(old(self).gates@),
                ..old(self).sent@
            }),
            final(self).sink.received() == final(self).sent@.sent_to(final(self).origin@),
            *final(self) == (GateBuilder {
                gates: final(self).gates,
                sent: final(self).sent,
                sink: final(self).sink,
                ..*old(self)
            }),
    {
        let mut gates: Vec<Gate> = Vec::new();
        std::mem::swap(&mut gates, &mut self.gates);
        let ghost list = gates_of(gates@);
        proof {
            lemma_pieces(self.sent@.gates, list, MAX_LEN as nat);
        }
        let ghost before = self.sent@;
        self.sent = Ghost(StatementV { gates: before.gates + list, ..before });
        let relation = Relation {
            header: self.header.clone(),
            gate_mask: self.gate_mask,
            feat_mask: self.feat_mask,
            functions: Vec::new(),
            gates,
        };
        assert(relation@.functions =~= Seq::empty());
        self.sink.push_relation_message(relation);
        assert(self.sink.received() =~= self.sent@.sent_to(self.origin@));
    }

    /// Appends an instance value.
    pub fn push_instance_value(&mut self, value: Value)
        requires
            old(self).wf(),
        ensures
            final(self).wf(),
            final(self).sink_before() == old(self).sink_before(),
            final(self)@ == (StatementV {
                instances: old(self)@.instances.push(value@),
                ..old(self)@
            }),
    {
        self.instances.push(value);
        assert(bytes_of(self.instances@) =~= bytes_of(old(self).instances@).push(value@));
        assert(self.sent@.instances + bytes_of(self.instances@) =~= old(self)@.instances.push(
            value@,
        ));
        if self.instances.len() == MAX_LEN {
            self.flush_instance();
            assert(self@.instances =~= old(self)@.instances.push(value@));
        }
    }

    /// Appends a witness value.
    pub fn push_witness_value(&mut self, value: Value)
        requires
            old(self).wf(),
        ensures
            final(self).wf(),
            final(self).sink_before() == old(self).sink_before(),
            final(self)@ == old(self)@.with_witness_value(value@),
    {
        self.witnesses.push(value);
        assert(bytes_of(self.witnesses@) =~= bytes_of(old(self).witnesses@).push(value@));
        assert(self.sent@.witnesses + bytes_of(self.witnesses@) =~= old(self)@.witnesses.push(
            value@,
        ));
        if self.witnesses.len() == MAX_LEN {
            self.flush_witness();
            assert(self@.witnesses =~= old(self)@.witnesses.push(value@));
        }
    }

    fn push_gate(&mut self, gate: Gate)
        requires
            old(self).wf(),
        ensures
            final(self).wf(),
            final(self).sink_before() == old(self).sink_before(),
            final(self)@ == (StatementV { gates: old(self)@.gates.push(gate@), ..old(self)@ }),
    {
        self.gates.push(gate);
        assert(gates_of(self.gates@) =~= gates_of(old(self).gates@).push(gate@));
        assert(self.sent@.gates + gates_of(self.gates@) =~= old(self)@.gates.push(gate@));
        if self.gates.len() == MAX_LEN {
            self.flush_relation();
            assert(self@.gates =~= old(self)@.gates.push(gate@));
        }
    }

    /// How many wires the gates write to.
    pub fn wires_used(&self) -> (r: WireId)
        ensures
            r == self@.free_id,
    {
        self.free_id
    }

    /// Appends a gate, with its value if there is one, and returns the wire that it
    /// writes to, which is `NO_OUTPUT` where there is none.
    pub fn create_gate(&mut self, gate: BuildGate) -> (r: WireId)
        requires
            old(self).wf(),
            gate@.writes() ==> old(self)@.free_id < NO_OUTPUT,
        ensures
            final(self).wf(),
            final(self).sink_before() == old(self).sink_before(),
            final(self)@ == old(self)@.with_gate(gate@),
            r == (if gate@.writes() {
                old(self)@.free_id as u64
            } else {
                NO_OUTPUT
            }),
    {
        let mut out_id: WireId = NO_OUTPUT;
        if gate.has_output() {
            out_id = self.free_id;
            self.free_id = out_id + 1;
        }
        match &gate {
            BuildGate::Instance(Some(value)) => {
                let copy = value.clone();
                assert(copy@ =~= value@);
                self.push_instance_value(copy);
            },
            BuildGate::Witness(Some(value)) => {
                let copy = value.clone();
                assert(copy@ =~= value@);
                self.push_witness_value(copy);
            },
            _ => {},
        }
        self.push_gate(gate.with_output(out_id));
        assert(self@ =~= old(self)@.with_gate(gate@));
        out_id
    }

    /// Sends what is left and gives the sink back.
    pub fn finish(self) -> (r: S)
        requires
            self.wf(),
        ensures
            r.received() == self@.sent_to(self.sink_before()),
    {
        let mut b = self;
        if b.instances.len() > 0 {
            b.flush_instance();
        }
        if b.witnesses.len() > 0 {
            b.flush_witness();
        }
        if b.gates.len() > 0 {
            b.flush_relation();
        }
        assert(b.sent@.instances =~= self@.instances);
        assert(b.sent@.witnesses =~= self@.witnesses);
        assert(b.sent@.gates =~= self@.gates);
        b.sink
    }
}

} // verus!
