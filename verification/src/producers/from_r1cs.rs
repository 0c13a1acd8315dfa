//! The writing of rank-1 constraint systems as circuits.

use crate::error::{decimal, Error};
use crate::number::{le_bytes, le_value, BigUint};
use crate::producers::build_gates::{BuildGate, BuildGateV, NO_OUTPUT};
use crate::producers::builder::{empty_statement, GateBuilder, StatementV};
use crate::producers::sink::{Sink, SinkV};
use crate::structs::header::{Header, HeaderV, IR_VERSION};
use crate::structs::r1cs::{
    variables_of, witness_ids, Assignment, BilinearConstraint, CircuitHeader, ConstraintSystem,
    ConstraintV, R1csMessage, Variable, VariableV, VariablesV,
};
use crate::structs::relation::{ARITH, SIMPLE};
use crate::structs::wire::WireId;
use std::collections::BTreeMap;
use vstd::prelude::*;
use vstd::string::*;

verus! {

broadcast use vstd::std_specs::btree::group_btree_axioms;

/// A circuit under construction from a constraint system.
#[verifier::ext_equal]
pub struct ConversionV {
    pub statement: StatementV,
    /// The wire that each variable stands on.
    pub wires: Map<u64, u64>,
    /// The wire that holds minus one.
    pub minus_one: u64,
}

/// What a step of the conversion leaves, and the wire that it gives.
pub type Step = (ConversionV, Result<u64, Seq<char>>);

pub open spec fn out_of_wires_text() -> Seq<char> {
    "No wire is left."@
}

pub open spec fn undefined_text(id: u64) -> Seq<char> {
    "The WireId "@ + decimal(id as nat) + " has not been defined yet."@
}

pub open spec fn no_witness_text(id: u64) -> Seq<char> {
    "The ZKI witness id "@ + decimal(id as nat) + " does not exist."@
}

/// The header of a circuit over the field with a given largest element.
pub open spec fn header_over(field_maximum: Seq<u8>) -> HeaderV {
    HeaderV {
        version: IR_VERSION@,
        field_characteristic: le_bytes(le_value(field_maximum) + 1),
        field_degree: 1,
    }
}

impl ConversionV {
    /// One more gate, which gives a wire; refused when there is none left.
    pub open spec fn gate(self, g: BuildGateV) -> Step {
        if self.statement.free_id >= NO_OUTPUT {
            (self, Err(out_of_wires_text()))
        } else {
            (
                ConversionV { statement: self.statement.with_gate(g), ..self },
                Ok(self.statement.free_id as u64),
            )
        }
    }

    /// A variable times its coefficient. An empty coefficient is zero. Variable zero
    /// is the constant one.
    pub open spec fn term(self, t: VariableV) -> Step {
        let value = if t.value.len() != 0 {
            t.value
        } else {
            seq![0u8]
        };
        let (v1, constant) = self.gate(BuildGateV::Constant(value));
        match constant {
            Err(e) => (v1, Err(e)),
            Ok(id) => if t.id == 0 {
                (v1, Ok(id))
            } else if !self.wires.contains_key(t.id) {
                (v1, Err(undefined_text(t.id)))
            } else {
                v1.gate(BuildGateV::Mul(self.wires[t.id], id))
            },
        }
    }

    /// Adds the terms from the `k`-th on to a sum.
    pub open spec fn sum_from(self, terms: Seq<VariableV>, k: nat, sum: u64) -> Step
        decreases terms.len() - k,
    {
        if k >= terms.len() {
            (self, Ok(sum))
        } else {
            let (v1, term) = self.term(terms[k as int]);
            match term {
                Err(e) => (v1, Err(e)),
                Ok(id) => {
                    let (v2, next) = v1.gate(BuildGateV::Add(sum, id));
                    match next {
                        Err(e) => (v2, Err(e)),
                        Ok(id) => v2.sum_from(terms, k + 1, id),
                    }
                },
            }
        }
    }

    /// A linear combination; the empty one is zero.
    pub open spec fn combination(self, terms: Seq<VariableV>) -> Step {
        if terms.len() == 0 {
            self.gate(BuildGateV::Constant(seq![0u8]))
        } else {
            let (v1, first) = self.term(terms[0]);
            match first {
                Err(e) => (v1, Err(e)),
                Ok(id) => v1.sum_from(terms, 1, id),
            }
        }
    }

    /// The claim that the product of two wires is a third one.
    pub open spec fn claim(self, a: u64, b: u64, c: u64) -> Step {
        let (v1, product) = self.gate(BuildGateV::Mul(a, b));
        match product {
            Err(e) => (v1, Err(e)),
            Ok(product) => {
                let (v2, neg) = v1.gate(BuildGateV::Mul(self.minus_one, c));
                match neg {
                    Err(e) => (v2, Err(e)),
                    Ok(neg) => {
                        let (v3, zero) = v2.gate(BuildGateV::Add(product, neg));
                        match zero {
                            Err(e) => (v3, Err(e)),
                            Ok(zero) => (
                                ConversionV {
                                    statement: v3.statement.with_gate(BuildGateV::AssertZero(zero)),
                                    ..v3
                                },
                                Ok(zero),
                            ),
                        }
                    },
                }
            },
        }
    }

    /// The gates of a constraint.
    pub open spec fn constraint(self, c: ConstraintV) -> Step {
        let (v1, a) = self.combination(c.a.split());
        match a {
            Err(e) => (v1, Err(e)),
            Ok(a) => {
                let (v2, b) = v1.combination(c.b.split());
                match b {
                    Err(e) => (v2, Err(e)),
                    Ok(b) => {
                        let (v3, sum) = v2.combination(c.c.split());
                        match sum {
                            Err(e) => (v3, Err(e)),
                            Ok(sum) => v3.claim(a, b, sum),
                        }
                    },
                }
            },
        }
    }

    /// The gates of the constraints from the `k`-th on.
    pub open spec fn constraints(self, list: Seq<BilinearConstraint>, k: nat) -> (
        ConversionV,
        Result<(), Seq<char>>,
    )
        decreases list.len() - k,
    {
        if k >= list.len() {
            (self, Ok(()))
        } else {
            let (v1, r) = self.constraint(list[k as int]@);
            match r {
                Err(e) => (v1, Err(e)),
                Ok(_) => v1.constraints(list, k + 1),
            }
        }
    }

    /// The values of private variables, from the `k`-th on. Each variable must stand
    /// on a wire.
    pub open spec fn assignments(self, list: Seq<VariableV>, k: nat) -> (
        ConversionV,
        Result<(), Seq<char>>,
    )
        decreases list.len() - k,
    {
        if k >= list.len() {
            (self, Ok(()))
        } else if !self.wires.contains_key(list[k as int].id) {
            (self, Err(no_witness_text(list[k as int].id)))
        } else {
            ConversionV {
                statement: self.statement.with_witness_value(list[k as int].value),
                ..self
            }.assignments(list, k + 1)
        }
    }

    /// Gives a variable the wire of a new gate.
    pub open spec fn bound(self, id: u64, g: BuildGateV) -> ConversionV {
        ConversionV {
            statement: self.statement.with_gate(g),
            wires: self.wires.insert(id, self.statement.free_id as u64),
            ..self
        }
    }

    /// Gives the instance variables from the `k`-th on a wire each. Variable zero has
    /// one already.
    pub open spec fn with_instances(self, list: Seq<VariableV>, k: nat) -> ConversionV
        decreases list.len() - k,
    {
        if k >= list.len() {
            self
        } else if list[k as int].id == 0 {
            self.with_instances(list, k + 1)
        } else {
            self.bound(
                list[k as int].id,
                BuildGateV::Instance(Some(list[k as int].value)),
            ).with_instances(list, k + 1)
        }
    }

    /// Gives the private variables from the `k`-th on a wire each.
    pub open spec fn with_privates(self, ids: Seq<u64>, k: nat) -> ConversionV
        decreases ids.len() - k,
    {
        if k >= ids.len() {
            self
        } else {
            self.bound(ids[k as int], BuildGateV::Witness(None)).with_privates(ids, k + 1)
        }
    }
}

/// A circuit in which every variable of a statement stands on a wire: the constant
/// one, minus one, the instance variables, the private variables.
pub open spec fn prepared(
    instance_variables: VariablesV,
    free_variable_id: u64,
    field_maximum: Seq<u8>,
) -> ConversionV {
    ConversionV {
        statement: empty_statement(header_over(field_maximum), ARITH, SIMPLE).with_gate(
            BuildGateV::Constant(seq![1u8]),
        ).with_gate(BuildGateV::Constant(field_maximum)),
        wires: Map::empty().insert(0, 0),
        minus_one: 1,
    }.with_instances(instance_variables.split(), 0).with_privates(
        witness_ids(instance_variables.ids, free_variable_id),
        0,
    )
}

/// Whether variable zero, if it is listed, is one.
pub open spec fn unit_is_one(list: Seq<VariableV>) -> bool {
    forall|i: int|
        0 <= i < list.len() && (#[trigger] list[i]).id == 0 ==> le_value(list[i].value) == 1
}

/// Whether a circuit can be prepared for a header: the field is known, variable zero is
/// one, and there is a wire for each variable.
pub open spec fn convertible(zki_header: CircuitHeader) -> bool {
    &&& zki_header.field_maximum is Some
    &&& unit_is_one(zki_header.instance_variables@.split())
    &&& zki_header.instance_variables@.ids.len() + witness_ids(
        zki_header.instance_variables@.ids,
        zki_header.free_variable_id,
    ).len() + 2 <= NO_OUTPUT
}

/// Why a circuit cannot be prepared for a header.
pub open spec fn not_convertible_text(zki_header: CircuitHeader) -> Seq<char> {
    if zki_header.field_maximum is None {
        "field_maximum must be provided"@
    } else if !unit_is_one(zki_header.instance_variables@.split()) {
        "value for instance id:0 should be a constant 1"@
    } else {
        out_of_wires_text()
    }
}

/// Checks that a circuit can be prepared for a header.
pub fn check_header(zki_header: &CircuitHeader) -> (r: Result<(), Error>)
    ensures
        match r {
            Ok(_) => convertible(*zki_header),
            Err(e) => !convertible(*zki_header) && e@ == not_convertible_text(*zki_header),
        },
{
    if zki_header.field_maximum.is_none() {
        return Err(Error::new("field_maximum must be provided"));
    }
    let variables = zki_header.instance_variables.get_variables();
    let ghost list = zki_header.instance_variables@.split();
    let mut k: usize = 0;
    while k < variables.len()
        invariant
            k <= variables@.len(),
            variables_of(variables@) == list,
            list == zki_header.instance_variables@.split(),
            zki_header.field_maximum is Some,
            forall|i: int|
                0 <= i < k && (#[trigger] list[i]).id == 0 ==> le_value(list[i].value) == 1,
        decreases variables@.len() - k,
    {
        assert(list[k as int] == variables@[k as int]@);
        if variables[k].id == 0 && !BigUint::from_bytes_le(variables[k].value.as_slice()).is_one() {
            return Err(Error::new("value for instance id:0 should be a constant 1"));
        }
        k = k + 1;
    }
    assert(list.len() == variables@.len()) by {
        assert(variables_of(variables@).len() == variables@.len());
    }
    let public: u128 = zki_header.instance_variables.variable_ids.len() as u128;
    let private: u128 = zki_header.list_witness_ids().len() as u128;
    if public + private + 2 > NO_OUTPUT as u128 {
        return Err(Error::new("No wire is left."));
    }
    Ok(())
}

/// Writes a constraint system as a circuit to a sink.
pub struct FromR1CSConverter<S: Sink> {
    b: GateBuilder<S>,
    // Useful to know which variable in R1CS is associated to which WireId in IR circuit.
    r1cs_to_ir_wire: BTreeMap<u64, WireId>,
    minus_one: WireId,
}

impl<S: Sink> View for FromR1CSConverter<S> {
    type V = ConversionV;

    closed spec fn view(&self) -> ConversionV {
        ConversionV {
            statement: self.b@,
            wires: self.r1cs_to_ir_wire@,
            minus_one: self.minus_one,
        }
    }
}

/// Whether an executable step gave what it should.
pub open spec fn step_gave<S: Sink>(
    after: FromR1CSConverter<S>,
    r: Result<u64, Error>,
    step: Step,
) -> bool {
    after@ == step.0 && (match r {
        Ok(id) => step.1 == Ok::<u64, Seq<char>>(id),
        Err(e) => step.1 == Err::<u64, Seq<char>>(e@),
    })
}

/// Whether executable steps gave what they should.
pub open spec fn steps_gave<S: Sink>(
    after: FromR1CSConverter<S>,
    r: Result<(), Error>,
    steps: (ConversionV, Result<(), Seq<char>>),
) -> bool {
    after@ == steps.0 && (match r {
        Ok(_) => steps.1 == Ok::<(), Seq<char>>(()),
        Err(e) => steps.1 == Err::<(), Seq<char>>(e@),
    })
}

impl<S: Sink> FromR1CSConverter<S> {
    /// The converter has its own invariant in its builder.
    pub closed spec fn wf(&self) -> bool {
        self.b.wf()
    }

    /// What the sink had got before.
    pub closed spec fn sink_before(&self) -> SinkV {
        self.b.sink_before()
    }

    /// Create a new R1CSConverter instance.
    /// the Sink is used to tell where to 'write' the output circuit
    /// the ZKI CircuitHeader will be used to preallocate things
    pub fn new(sink: S, zki_header: &CircuitHeader) -> (r: Self)
        requires
            convertible(*zki_header),
        ensures
            r.wf(),
            r.sink_before() == sink.received(),
            r@ == prepared(
                zki_header.instance_variables@,
                zki_header.free_variable_id,
                zki_header.field_maximum->Some_0@,
            ),
    {
        let field_maximum = zki_header.field_maximum.as_ref().unwrap().clone();
        assert(field_maximum@ =~= zki_header.field_maximum->Some_0@);
        let header = header_of(&field_maximum);
        let ghost maximum = field_maximum@;
        let mut conv: FromR1CSConverter<S> = FromR1CSConverter {
            b: GateBuilder::new(sink, header, ARITH, SIMPLE),
            r1cs_to_ir_wire: BTreeMap::new(),
            minus_one: 0,
        };
        // allocate constant '1' to IR wire '0'.
        let unit: Vec<u8> = vec![1u8];
        assert(unit@ =~= seq![1u8]);
        let one = conv.b.create_gate(BuildGate::Constant(unit));
        conv.r1cs_to_ir_wire.insert(0, one);
        // allocate constant '-1'.
        conv.minus_one = conv.b.create_gate(BuildGate::Constant(field_maximum));
        let ghost start = conv@;
        assert(start =~= (ConversionV {
            statement: empty_statement(header_over(maximum), ARITH, SIMPLE).with_gate(
                BuildGateV::Constant(seq![1u8]),
            ).with_gate(BuildGateV::Constant(maximum)),
            wires: Map::empty().insert(0, 0),
            minus_one: 1,
        }));
        // allocate all the instance variables with their respective values.
        let variables = zki_header.instance_variables.get_variables();
        let ghost list = zki_header.instance_variables@.split();
        assert(variables@.len() == list.len()) by {
            assert(variables_of(variables@).len() == variables@.len());
        }
        let mut k: usize = 0;
        while k < variables.len()
            invariant
                k <= variables@.len(),
                variables_of(variables@) == list,
                conv.wf(),
                conv.sink_before() == sink.received(),
                conv@.statement.free_id <= k + 2,
                variables@.len() + 2 <= NO_OUTPUT,
                start.with_instances(list, 0) == conv@.with_instances(list, k as nat),
            decreases variables@.len() - k,
        {
            assert(variables_of(variables@)[k as int] == variables@[k as int]@);
            let id: u64 = variables[k].id;
            if id != 0 {
                let value = variables[k].value.clone();
                assert(value@ =~= variables@[k as int].value@);
                let wire = conv.b.create_gate(BuildGate::Instance(Some(value)));
                conv.r1cs_to_ir_wire.insert(id, wire);
            }
            k = k + 1;
        }
        // preallocate wire id which will contain witness variables.
        let ids = zki_header.list_witness_ids();
        let ghost middle = conv@;
        let mut j: usize = 0;
        while j < ids.len()
            invariant
                j <= ids@.len(),
                conv.wf(),
                conv.sink_before() == sink.received(),
                conv@.statement.free_id <= variables@.len() + j + 2,
                variables@.len() + ids@.len() + 2 <= NO_OUTPUT,
                middle.with_privates(ids@, 0) == conv@.with_privates(ids@, j as nat),
            decreases ids@.len() - j,
        {
            let wire = conv.b.create_gate(BuildGate::Witness(None));
            conv.r1cs_to_ir_wire.insert(ids[j], wire);
            j = j + 1;
        }
        conv
    }

    /// One more gate, which gives a wire.
    fn create(&mut self, gate: BuildGate) -> (r: Result<WireId, Error>)
        requires
            old(self).wf(),
            gate@.writes(),
        ensures
            final(self).wf(),
            final(self).sink_before() == old(self).sink_before(),
            step_gave(*final(self), r, old(self)@.gate(gate@)),
    {
        if self.b.wires_used() == NO_OUTPUT {
            return Err(Error::new("No wire is left."));
        }
        Ok(self.b.create_gate(gate))
    }

    fn build_term(&mut self, term: &Variable) -> (r: Result<WireId, Error>)
        requires
            old(self).wf(),
        ensures
            final(self).wf(),
            final(self).sink_before() == old(self).sink_before(),
            step_gave(*final(self), r, old(self)@.term(term@)),
    {
        let mut value: Vec<u8> = Vec::new();
        if term.value.len() != 0 {
            value = term.value.clone();
            assert(value@ =~= term.value@);
        } else {
            value.push(0u8);
            assert(value@ =~= seq![0u8]);
        }
        let val_id = match self.create(BuildGate::Constant(value)) {
            Err(e) => {
                return Err(e);
            },
            Ok(id) => id,
        };
        if term.id == 0 {
            return Ok(val_id);
        }
        let term_id = match self.r1cs_to_ir_wire.get(&term.id) {
            None => {
                return Err(
                    Error::with_number("The WireId ", term.id, " has not been defined yet."),
                );
            },
            Some(id) => *id,
        };
        self.create(BuildGate::Mul(term_id, val_id))
    }

    fn add_lc(&mut self, lc: &Vec<Variable>) -> (r: Result<WireId, Error>)
        requires
            old(self).wf(),
        ensures
            final(self).wf(),
            final(self).sink_before() == old(self).sink_before(),
            step_gave(*final(self), r, old(self)@.combination(variables_of(lc@))),
    {
        if lc.len() == 0 {
            // empty linear combination translates into a 0 value
            let zero: Vec<u8> = vec![0u8];
            assert(zero@ =~= seq![0u8]);
            return self.create(BuildGate::Constant(zero));
        }
        let ghost terms = variables_of(lc@);
        assert(terms[0] == lc@[0]@);
        let mut sum_id = match self.build_term(&lc[0]) {
            Err(e) => {
                return Err(e);
            },
            Ok(id) => id,
        };
        let mut k: usize = 1;
        while k < lc.len()
            invariant
                1 <= k <= lc@.len(),
                terms == variables_of(lc@),
                self.wf(),
                self.sink_before() == old(self).sink_before(),
                old(self)@.combination(terms) == self@.sum_from(terms, k as nat, sum_id),
            decreases lc@.len() - k,
        {
            assert(terms[k as int] == lc@[k as int]@);
            let term_id = match self.build_term(&lc[k]) {
                Err(e) => {
                    return Err(e);
                },
                Ok(id) => id,
            };
            sum_id = match self.create(BuildGate::Add(sum_id, term_id)) {
                Err(e) => {
                    return Err(e);
                },
                Ok(id) => id,
            };
            k = k + 1;
        }
        Ok(sum_id)
    }

    /// Converts a R1CS constraint into a graph of Add/Mul/Const/AssertZero gates. The
    /// wire that is given is the one that has to be zero.
    fn add_constraint(&mut self, constraint: &BilinearConstraint) -> (r: Result<WireId, Error>)
        requires
            old(self).wf(),
        ensures
            final(self).wf(),
            final(self).sink_before() == old(self).sink_before(),
            step_gave(*final(self), r, old(self)@.constraint(constraint@)),
    {
        let sum_a_id = match self.add_lc(&constraint.linear_combination_a.get_variables()) {
            Err(e) => {
                return Err(e);
            },
            Ok(id) => id,
        };
        let sum_b_id = match self.add_lc(&constraint.linear_combination_b.get_variables()) {
            Err(e) => {
                return Err(e);
            },
            Ok(id) => id,
        };
        let sum_c_id = match self.add_lc(&constraint.linear_combination_c.get_variables()) {
            Err(e) => {
                return Err(e);
            },
            Ok(id) => id,
        };
        let prod_id = match self.create(BuildGate::Mul(sum_a_id, sum_b_id)) {
            Err(e) => {
                return Err(e);
            },
            Ok(id) => id,
        };
        let neg_c_id = match self.create(BuildGate::Mul(self.minus_one, sum_c_id)) {
            Err(e) => {
                return Err(e);
            },
            Ok(id) => id,
        };
        let claim_zero_id = match self.create(BuildGate::Add(prod_id, neg_c_id)) {
            Err(e) => {
                return Err(e);
            },
            Ok(id) => id,
        };
        self.b.create_gate(BuildGate::AssertZero(claim_zero_id));
        Ok(claim_zero_id)
    }

    /// Converts each R1CS constraint into gates.
    pub fn ingest_constraints(&mut self, zki_r1cs: &ConstraintSystem) -> (r: Result<(), Error>)
        requires
            old(self).wf(),
        ensures
            final(self).wf(),
            final(self).sink_before() == old(self).sink_before(),
            steps_gave(*final(self), r, old(self)@.constraints(zki_r1cs.constraints@, 0)),
    {
        let mut k: usize = 0;
        while k < zki_r1cs.constraints.len()
            invariant
                k <= zki_r1cs.constraints@.len(),
                self.wf(),
                self.sink_before() == old(self).sink_before(),
                old(self)@.constraints(zki_r1cs.constraints@, 0) == self@.constraints(
                    zki_r1cs.constraints@,
                    k as nat,
                ),
            decreases zki_r1cs.constraints@.len() - k,
        {
            match self.add_constraint(&zki_r1cs.constraints[k]) {
                Err(e) => {
                    return Err(e);
                },
                Ok(_) => {},
            }
            k = k + 1;
        }
        Ok(())
    }

    /// Appends the values of private variables to the witness.
    pub fn ingest_witness(&mut self, zki_witness: &Assignment) -> (r: Result<(), Error>)
        requires
            old(self).wf(),
        ensures
            final(self).wf(),
            final(self).sink_before() == old(self).sink_before(),
            steps_gave(
                *final(self),
                r,
                old(self)@.assignments(zki_witness.assigned_variables@.split(), 0),
            ),
    {
        let variables = zki_witness.assigned_variables.get_variables();
        let ghost list = zki_witness.assigned_variables@.split();
        let mut k: usize = 0;
        while k < variables.len()
            invariant
                k <= variables@.len(),
                variables_of(variables@) == list,
                list == zki_witness.assigned_variables@.split(),
                self.wf(),
                self.sink_before() == old(self).sink_before(),
                old(self)@.assignments(list, 0) == self@.assignments(list, k as nat),
            decreases variables@.len() - k,
        {
            assert(list[k as int] == variables@[k as int]@);
            if !self.r1cs_to_ir_wire.contains_key(&variables[k].id) {
                return Err(
                    Error::with_number("The ZKI witness id ", variables[k].id, " does not exist."),
                );
            }
            let value = variables[k].value.clone();
            assert(value@ =~= variables@[k as int].value@);
            self.b.push_witness_value(value);
            k = k + 1;
        }
        assert(list.len() == variables@.len());
        Ok(())
    }

    /// Sends what is left and gives the sink back.
    pub fn finish(self) -> (r: S)
        requires
            self.wf(),
        ensures
            r.received() == self@.statement.sent_to(self.sink_before()),
    {
        self.b.finish()
    }
}

fn header_of(field_maximum: &Vec<u8>) -> (r: Header)
    ensures
        r@ == header_over(field_maximum@),
{
    let fc = BigUint::from_bytes_le(field_maximum.as_slice()).plus(&BigUint::one());
    Header {
        version: IR_VERSION.to_owned(),
        field_characteristic: fc.to_bytes_le(),
        field_degree: 1,
    }
}

/// The header of the circuit that a constraint system is written as.
pub fn zki_header_to_header(zki_header: &CircuitHeader) -> (r: Result<Header, Error>)
    ensures
        match zki_header.field_maximum {
            None => r is Err && r->Err_0@ == "field_maximum must be provided"@,
            Some(field_maximum) => r is Ok && r->Ok_0@ == header_over(field_maximum@),
        },
{
    match &zki_header.field_maximum {
        None => Err(Error::new("field_maximum must be provided")),
        Some(field_maximum) => Ok(header_of(field_maximum)),
    }
}

/// The first header among messages, from the `k`-th on.
pub open spec fn first_header(messages: Seq<R1csMessage>, k: nat) -> Option<CircuitHeader>
    decreases messages.len() - k,
{
    if k >= messages.len() {
        None
    } else {
        match messages[k as int] {
            R1csMessage::Header(header) => Some(header),
            _ => first_header(messages, k + 1),
        }
    }
}

impl ConversionV {
    /// What the messages from the `k`-th on add, in order, up to the first that is refused.
    pub open spec fn fed(self, messages: Seq<R1csMessage>, k: nat) -> (
        ConversionV,
        Result<(), Seq<char>>,
    )
        decreases messages.len() - k,
    {
        if k >= messages.len() {
            (self, Ok(()))
        } else {
            let (v1, r) = match messages[k as int] {
                R1csMessage::Constraints(system) => self.constraints(system.constraints@, 0),
                R1csMessage::Witness(w) => self.assignments(w.assigned_variables@.split(), 0),
                _ => (self, Ok(())),
            };
            match r {
                Err(e) => (v1, Err(e)),
                Ok(_) => v1.fed(messages, k + 1),
            }
        }
    }
}

/// What a statement in constraints is written as: the statement of a circuit, or why there
/// is none.
pub open spec fn conversion_of(messages: Seq<R1csMessage>) -> Result<StatementV, Seq<char>> {
    match first_header(messages, 0) {
        None => Err("Header not present in ZKIF workspace."@),
        Some(header) => if !convertible(header) {
            Err(not_convertible_text(header))
        } else {
            let (v, r) = prepared(
                header.instance_variables@,
                header.free_variable_id,
                header.field_maximum->Some_0@,
            ).fed(messages, 0);
            match r {
                Err(e) => Err(e),
                Ok(_) => Ok(v.statement),
            }
        },
    }
}

/// Writes a whole statement in constraints as a circuit: its first header decides, then all
/// constraints and private values follow in order.
pub fn convert_messages<S: Sink>(sink: S, messages: &Vec<R1csMessage>) -> (r: Result<S, Error>)
    ensures
        match r {
            Ok(after) => conversion_of(messages@) is Ok && after.received() == conversion_of(
                messages@,
            )->Ok_0.sent_to(sink.received()),
            Err(e) => conversion_of(messages@) == Err::<StatementV, Seq<char>>(e@),
        },
{
    let mut k: usize = 0;
    while k < messages.len()
        invariant_except_break
            k <= messages@.len(),
            first_header(messages@, 0) == first_header(messages@, k as nat),
        ensures
            k <= messages@.len(),
            first_header(messages@, 0) == first_header(messages@, k as nat),
            k < messages@.len() ==> messages@[k as int] is Header,
        decreases messages@.len() - k,
    {
        if let R1csMessage::Header(_) = &messages[k] {
            break;
        }
        k = k + 1;
    }
    if k == messages.len() {
        return Err(Error::new("Header not present in ZKIF workspace."));
    }
    let mut conv = match &messages[k] {
        R1csMessage::Header(header) => {
            match check_header(header) {
                Err(e) => {
                    return Err(e);
                },
                Ok(_) => {},
            }
            FromR1CSConverter::new(sink, header)
        },
        _ => {
            return Err(Error::new("Header not present in ZKIF workspace."));
        },
    };
    let ghost start = conv@;
    let mut j: usize = 0;
    while j < messages.len()
        invariant
            j <= messages@.len(),
            conv.wf(),
            conv.sink_before() == sink.received(),
            start.fed(messages@, 0) == conv@.fed(messages@, j as nat),
            conversion_of(messages@) == (match start.fed(messages@, 0).1 {
                Err(e) => Err::<StatementV, Seq<char>>(e),
                Ok(_) => Ok::<StatementV, Seq<char>>(start.fed(messages@, 0).0.statement),
            }),
        decreases messages@.len() - j,
    {
        let r = match &messages[j] {
            R1csMessage::Constraints(system) => conv.ingest_constraints(system),
            R1csMessage::Witness(witness) => conv.ingest_witness(witness),
            _ => Ok(()),
        };
        match r {
            Err(e) => {
                return Err(e);
            },
            Ok(_) => {},
        }
        j = j + 1;
    }
    Ok(conv.finish())
}

} // verus!
