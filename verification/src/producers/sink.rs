//! Where the messages of a statement go.

use crate::consumers::statements::messages_in;
use crate::structs::instance::{Instance, InstanceV};
use crate::structs::message::Message;
use crate::structs::relation::{Relation, RelationV};
use crate::structs::witness::{Witness, WitnessV};
use vstd::prelude::*;

verus! {

/// The messages that a sink has got, by kind, oldest first.
#[verifier::ext_equal]
pub struct SinkV {
    pub instances: Seq<InstanceV>,
    pub witnesses: Seq<WitnessV>,
    pub relations: Seq<RelationV>,
}

/// What takes the messages of a statement. Messages of different kinds are kept
/// apart.
pub trait Sink: Sized {
    /// What the sink has got so far.
    spec fn received(&self) -> SinkV;

    fn push_instance_message(&mut self, instance: Instance)
        ensures
            final(self).received() == (SinkV {
                instances: old(self).received().instances.push(instance@),
                ..old(self).received()
            }),
    ;

    fn push_witness_message(&mut self, witness: Witness)
        ensures
            final(self).received() == (SinkV {
                witnesses: old(self).received().witnesses.push(witness@),
                ..old(self).received()
            }),
    ;

    fn push_relation_message(&mut self, relation: Relation)
        ensures
            final(self).received() == (SinkV {
                relations: old(self).received().relations.push(relation@),
                ..old(self).received()
            }),
    ;
}

/// A sink that keeps messages in memory.
#[derive(Debug)]
pub struct MemorySink {
    pub instances: Vec<Instance>,
    pub witnesses: Vec<Witness>,
    pub relations: Vec<Relation>,
}

impl Default for MemorySink {
    fn default() -> (r: Self)
        ensures
            r.received() == (SinkV {
                instances: Seq::empty(),
                witnesses: Seq::empty(),
                relations: Seq::empty(),
            }),
    {
        let r = MemorySink { instances: Vec::new(), witnesses: Vec::new(), relations: Vec::new() };
        assert(r.received() =~= (SinkV {
            instances: Seq::empty(),
            witnesses: Seq::empty(),
            relations: Seq::empty(),
        }));
        r
    }
}

impl Sink for MemorySink {
    open spec fn received(&self) -> SinkV {
        SinkV {
            instances: self.instances@.map_values(|i: Instance| i@),
            witnesses: self.witnesses@.map_values(|w: Witness| w@),
            relations: self.relations@.map_values(|r: Relation| r@),
        }
    }

    fn push_instance_message(&mut self, instance: Instance) {
        self.instances.push(instance);
        assert(self.received().instances =~= old(self).received().instances.push(instance@));
    }

    fn push_witness_message(&mut self, witness: Witness) {
        self.witnesses.push(witness);
        assert(self.received().witnesses =~= old(self).received().witnesses.push(witness@));
    }

    fn push_relation_message(&mut self, relation: Relation) {
        self.relations.push(relation);
        assert(self.received().relations =~= old(self).received().relations.push(relation@));
    }
}

/// Several messages, all of one kind.
pub open spec fn as_instances(list: Seq<Instance>) -> Seq<Message> {
    list.map_values(|i: Instance| Message::Instance(i))
}

pub open spec fn as_witnesses(list: Seq<Witness>) -> Seq<Message> {
    list.map_values(|w: Witness| Message::Witness(w))
}

pub open spec fn as_relations(list: Seq<Relation>) -> Seq<Message> {
    list.map_values(|r: Relation| Message::Relation(r))
}

impl MemorySink {
    /// The messages in the order in which a statement is read: instances, witnesses,
    /// relations.
    pub fn into_messages(self) -> (r: Vec<Message>)
        ensures
            r@ == as_instances(self.instances@) + as_witnesses(self.witnesses@) + as_relations(
                self.relations@,
            ),
            r@ == messages_in(self),
    {
        let mut messages: Vec<Message> = Vec::new();
        let mut instances = self.instances;
        let mut witnesses = self.witnesses;
        let mut relations = self.relations;
        while instances.len() > 0
            invariant
                messages@ + as_instances(instances@) =~= as_instances(self.instances@),
            decreases instances@.len(),
        {
            let ghost rest = instances@;
            let first = instances.remove(0);
            assert(as_instances(rest) =~= seq![Message::Instance(first)] + as_instances(instances@));
            messages.push(Message::Instance(first));
        }
        while witnesses.len() > 0
            invariant
                messages@ + as_witnesses(witnesses@) =~= as_instances(self.instances@)
                    + as_witnesses(self.witnesses@),
            decreases witnesses@.len(),
        {
            let ghost rest = witnesses@;
            let first = witnesses.remove(0);
            assert(as_witnesses(rest) =~= seq![Message::Witness(first)] + as_witnesses(witnesses@));
            messages.push(Message::Witness(first));
        }
        while relations.len() > 0
            invariant
                messages@ + as_relations(relations@) =~= as_instances(self.instances@)
                    + as_witnesses(self.witnesses@) + as_relations(self.relations@),
            decreases relations@.len(),
        {
            let ghost rest = relations@;
            let first = relations.remove(0);
            assert(as_relations(rest) =~= seq![Message::Relation(first)] + as_relations(
                relations@,
            ));
            messages.push(Message::Relation(first));
        }
        messages
    }
}

} // verus!
