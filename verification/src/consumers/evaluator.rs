//! The evaluation of the messages of a statement.

use crate::consumers::backend::answered;
use crate::consumers::execution::{declared, ingest_gates, FunctionDeclaration};
use crate::consumers::operations::{elements, told, wires};
use crate::consumers::semantics::{
    all_defined, enqueued, fresh, look, violations, with_instance, with_message, with_messages,
    with_relation, with_witness, EvaluatorV, MAX_NESTING,
};
use crate::error::Error;
use crate::number::{le_value, BigUint};
use crate::structs::header::Header;
use crate::structs::instance::Instance;
use crate::structs::iterators::IteratorTable;
use crate::structs::message::Message;
use crate::structs::relation::{contains_feature, Relation, BOOL};
use crate::structs::wire::{Value, WireId};
use crate::structs::witness::Witness;
use std::collections::{HashMap, VecDeque};
use vstd::prelude::*;
use vstd::string::*;

pub use crate::consumers::backend::ZKBackend;
pub use crate::consumers::operations::{exp, get};
pub use crate::consumers::plaintext::PlaintextBackend;

verus! {

/// This structure is the core of IR evaluation. It is instantiated using a ZKBackend,
/// and will read the IR circuit, parses it, and calls the corresponding function from the
/// ZKBackend to evaluate each single operation.
/// It will inline functions, unroll loops, and multiplex switches.
pub struct Evaluator<B: ZKBackend> {
    values: HashMap<WireId, B::Wire>,
    modulus: BigUint,
    instance_queue: VecDeque<B::FieldElement>,
    witness_queue: VecDeque<B::FieldElement>,
    is_boolean: bool,
    known_functions: Vec<FunctionDeclaration>,
    verified_at_least_one_gate: bool,
    found_error: Option<String>,
}

impl<B: ZKBackend> View for Evaluator<B> {
    type V = EvaluatorV;

    closed spec fn view(&self) -> EvaluatorV {
        EvaluatorV {
            scope: wires::<B>(self.values@),
            modulus: self.modulus@,
            instances: elements::<B>(self.instance_queue@),
            witnesses: elements::<B>(self.witness_queue@),
            is_boolean: self.is_boolean,
            functions: declared(self.known_functions@),
            verified: self.verified_at_least_one_gate,
            error: match self.found_error {
                Some(s) => Some(s@),
                None => None,
            },
        }
    }
}

impl<B: ZKBackend> Default for Evaluator<B> {
    fn default() -> (r: Self)
        ensures
            r@ == fresh(),
    {
        let r: Evaluator<B> = Evaluator {
            values: HashMap::new(),
            modulus: BigUint::zero(),
            instance_queue: VecDeque::new(),
            witness_queue: VecDeque::new(),
            is_boolean: false,
            known_functions: Vec::new(),
            verified_at_least_one_gate: false,
            found_error: None,
        };
        assert(r@ =~= fresh());
        r
    }
}

/// Appends the elements that values stand for to a queue.
fn enqueue<B: ZKBackend>(queue: &mut VecDeque<B::FieldElement>, values: &Vec<Value>) -> (r: Result<
    (),
    Error,
>)
    ensures
        (elements::<B>(final(queue)@), told(r)) == enqueued::<B>(
            elements::<B>(old(queue)@),
            values@,
            0,
        ),
{
    let mut k: usize = 0;
    while k < values.len()
        invariant
            k <= values@.len(),
            enqueued::<B>(elements::<B>(old(queue)@), values@, 0) == enqueued::<B>(
                elements::<B>(queue@),
                values@,
                k as nat,
            ),
        decreases values@.len() - k,
    {
        match B::from_bytes_le(values[k].as_slice()) {
            Err(e) => {
                return Err(e);
            },
            Ok(x) => {
                assert(elements::<B>(queue@.push(x)) =~= elements::<B>(queue@).push(
                    B::element(x),
                ));
                queue.push_back(x);
            },
        }
        k = k + 1;
    }
    Ok(())
}

impl<B: ZKBackend> Evaluator<B> {
    /// Creates an Evaluator for a list of `Messages`
    /// The returned Evaluator can then be reused to ingest more messages using the one of the
    /// `ingest_***` functions.
    pub fn from_messages(messages: &Vec<Message>, backend: &mut B) -> (r: Self)
        ensures
            (r@, final(backend).state()) == with_messages::<B>(
                fresh(),
                old(backend).state(),
                messages@,
                0,
            ),
    {
        let mut evaluator: Evaluator<B> = Evaluator::default();
        let mut k: usize = 0;
        while k < messages.len()
            invariant
                k <= messages@.len(),
                with_messages::<B>(fresh(), old(backend).state(), messages@, 0) == with_messages::<
                    B,
                >(evaluator@, backend.state(), messages@, k as nat),
            decreases messages@.len() - k,
        {
            evaluator.ingest_message(&messages[k], backend);
            k = k + 1;
        }
        evaluator
    }

    /// Returns the list of violations detected when evaluating the IR circuit.
    /// It consumes `self`.
    pub fn get_violations(self) -> (r: Vec<String>)
        ensures
            r@.map_values(|s: String| s@) == violations(self@),
    {
        let mut found: Vec<String> = Vec::new();
        if !self.verified_at_least_one_gate {
            found.push("Did not receive any gate to verify.".to_owned());
        }
        if let Some(err) = self.found_error {
            found.push(err);
        }
        assert(found@.map_values(|s: String| s@) =~= violations(self@));
        found
    }

    /// Ingests a `Message` using the ZKBackend given in parameter.
    /// If a error was found in previous Messages, then it does nothing but returns,
    /// otherwise it ingests the message.
    pub fn ingest_message(&mut self, msg: &Message, backend: &mut B)
        ensures
            (final(self)@, final(backend).state()) == with_message::<B>(
                old(self)@,
                old(backend).state(),
                *msg,
            ),
    {
        if self.found_error.is_some() {
            return ;
        }
        match self.ingest_message_(msg, backend) {
            Err(err) => {
                self.found_error = Some(err.to_string());
            },
            Ok(_) => {},
        }
    }

    fn ingest_message_(&mut self, msg: &Message, backend: &mut B) -> (r: Result<(), Error>)
        ensures
            (final(self)@, final(backend).state(), told(r)) == (match *msg {
                Message::Instance(i) => {
                    let (e, t) = with_instance::<B>(old(self)@, i);
                    (e, old(backend).state(), t)
                },
                Message::Witness(w) => {
                    let (e, t) = with_witness::<B>(old(self)@, w);
                    (e, old(backend).state(), t)
                },
                Message::Relation(relation) => with_relation::<B>(
                    old(self)@,
                    old(backend).state(),
                    relation,
                ),
            }),
    {
        match msg {
            Message::Instance(i) => self.ingest_instance(i),
            Message::Witness(w) => self.ingest_witness(w),
            Message::Relation(r) => self.ingest_relation(r, backend),
        }
    }

    fn ingest_header(&mut self, header: &Header)
        ensures
            final(self)@ == (EvaluatorV {
                modulus: le_value(header.field_characteristic@),
                ..old(self)@
            }),
    {
        self.modulus = BigUint::from_bytes_le(header.field_characteristic.as_slice());
    }

    /// Ingest an `Instance` message, and returns a `Result` whether ot nor an error
    /// was encountered. It stores the instance values in a pool.
    pub fn ingest_instance(&mut self, instance: &Instance) -> (r: Result<(), Error>)
        ensures
            (final(self)@, told(r)) == with_instance::<B>(old(self)@, *instance),
    {
        self.ingest_header(&instance.header);
        enqueue::<B>(&mut self.instance_queue, &instance.common_inputs)
    }

    /// Ingest an `Witness` message, and returns a `Result` whether ot nor an error
    /// was encountered. It stores the witness values in a pool.
    pub fn ingest_witness(&mut self, witness: &Witness) -> (r: Result<(), Error>)
        ensures
            (final(self)@, told(r)) == with_witness::<B>(old(self)@, *witness),
    {
        self.ingest_header(&witness.header);
        enqueue::<B>(&mut self.witness_queue, &witness.short_witness)
    }

    /// Ingest a `Relation` message
    pub fn ingest_relation(&mut self, relation: &Relation, backend: &mut B) -> (r: Result<
        (),
        Error,
    >)
        ensures
            (final(self)@, final(backend).state(), told(r)) == with_relation::<B>(
                old(self)@,
                old(backend).state(),
                *relation,
            ),
    {
        self.ingest_header(&relation.header);
        self.is_boolean = contains_feature(relation.gate_mask, BOOL);
        match backend.set_field(
            relation.header.field_characteristic.as_slice(),
            relation.header.field_degree,
            self.is_boolean,
        ) {
            Err(e) => {
                return Err(e);
            },
            Ok(_) => {},
        }
        if relation.gates.len() > 0 {
            self.verified_at_least_one_gate = true;
        }
        let ghost before = self.known_functions@;
        let ghost entry = *self;
        let mut k: usize = 0;
        while k < relation.functions.len()
            invariant
                k <= relation.functions@.len(),
                declared(self.known_functions@) =~= declared(before) + all_defined(
                    relation.functions@,
                ).take(k as int),
                *self == (Evaluator { known_functions: self.known_functions, ..entry }),
            decreases relation.functions@.len() - k,
        {
            let function = FunctionDeclaration::new(&relation.functions[k]);
            assert(declared(self.known_functions@.push(function)) =~= declared(
                self.known_functions@,
            ).push(function@));
            assert(all_defined(relation.functions@).take(k + 1) =~= all_defined(
                relation.functions@,
            ).take(k as int).push(function@));
            self.known_functions.push(function);
            k = k + 1;
        }
        assert(declared(self.known_functions@) =~= declared(before) + all_defined(
            relation.functions@,
        ));
        let mut known_iterators = IteratorTable::new();
        ingest_gates(
            &relation.gates,
            backend,
            &mut self.values,
            &self.known_functions,
            &mut known_iterators,
            &self.modulus,
            self.is_boolean,
            &mut self.instance_queue,
            &mut self.witness_queue,
            None,
            MAX_NESTING,
        )
    }

    /// This helper function can be used to retrieve value of a given wire at some point
    /// if it has *NOT* been freed yet, otherwise it will return an Err.
    pub fn get(&self, id: WireId) -> (r: Result<&B::Wire, Error>)
        ensures
            answered(r, B::wire(*r->Ok_0)) == look(self@.scope, id),
    {
        get::<B>(&self.values, id)
    }
}

} // verus!
