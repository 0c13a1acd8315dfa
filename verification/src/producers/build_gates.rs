//! Gates whose output wires are still to be chosen.

use crate::structs::function::CaseInvoke;
use crate::structs::gate::{Gate, GateV};
use crate::structs::wire::{Value, WireId, WireList};
use vstd::prelude::*;

verus! {

/// BuildGate is similar to Gate but without output wires.
/// Useful in combination with GateBuilder.
#[derive(Clone, Debug, PartialEq, Eq, Hash)]
pub enum BuildGate {
    Constant(Value),
    AssertZero(WireId),
    Copy(WireId),
    Add(WireId, WireId),
    Mul(WireId, WireId),
    AddConstant(WireId, Value),
    MulConstant(WireId, Value),
    And(WireId, WireId),
    Xor(WireId, WireId),
    Not(WireId),
    Instance(Option<Value>),
    Witness(Option<Value>),
    Free(WireId, Option<WireId>),
}

/// Stands for the output wire of a gate that has none.
pub const NO_OUTPUT: WireId = 0xffff_ffff_ffff_ffff;

impl BuildGate {
    /// This gate with an output wire, which is `NO_OUTPUT` where it has none.
    pub fn with_output(self, output: WireId) -> (r: Gate)
        requires
            self@.writes() || output == NO_OUTPUT,
        ensures
            r@ == self@.writing_to(output),
    {
        match self {
            BuildGate::Constant(value) => Gate::Constant(output, value),
            BuildGate::AssertZero(input) => Gate::AssertZero(input),
            BuildGate::Copy(input) => Gate::Copy(output, input),
            BuildGate::Add(left, right) => Gate::Add(output, left, right),
            BuildGate::Mul(left, right) => Gate::Mul(output, left, right),
            BuildGate::AddConstant(left, value) => Gate::AddConstant(output, left, value),
            BuildGate::MulConstant(left, value) => Gate::MulConstant(output, left, value),
            BuildGate::And(left, right) => Gate::And(output, left, right),
            BuildGate::Xor(left, right) => Gate::Xor(output, left, right),
            BuildGate::Not(input) => Gate::Not(output, input),
            BuildGate::Instance(_value) => Gate::Instance(output),
            BuildGate::Witness(_value) => Gate::Witness(output),
            BuildGate::Free(first, last) => Gate::Free(first, last),
        }
    }

    /// Whether this gate writes to a wire.
    pub fn has_output(&self) -> (r: bool)
        ensures
            r == self@.writes(),
    {
        match self {
            BuildGate::AssertZero(_) => false,
            BuildGate::Free(_, _) => false,
            _ => true,
        }
    }
}

/// A gate without an output wire as a mathematical value.
pub enum BuildGateV {
    Constant(Seq<u8>),
    AssertZero(u64),
    Copy(u64),
    Add(u64, u64),
    Mul(u64, u64),
    AddConstant(u64, Seq<u8>),
    MulConstant(u64, Seq<u8>),
    And(u64, u64),
    Xor(u64, u64),
    Not(u64),
    Instance(Option<Seq<u8>>),
    Witness(Option<Seq<u8>>),
    Free(u64, Option<u64>),
}

impl BuildGateV {
    /// Whether this gate writes to a wire.
    pub open spec fn writes(self) -> bool {
        !(self is AssertZero || self is Free)
    }

    /// This gate, writing to a given wire.
    pub open spec fn writing_to(self, output: u64) -> GateV {
        match self {
            BuildGateV::Constant(value) => GateV::Constant(output, value),
            BuildGateV::AssertZero(a) => GateV::AssertZero(a),
            BuildGateV::Copy(a) => GateV::Copy(output, a),
            BuildGateV::Add(a, b) => GateV::Add(output, a, b),
            BuildGateV::Mul(a, b) => GateV::Mul(output, a, b),
            BuildGateV::AddConstant(a, value) => GateV::AddConstant(output, a, value),
            BuildGateV::MulConstant(a, value) => GateV::MulConstant(output, a, value),
            BuildGateV::And(a, b) => GateV::And(output, a, b),
            BuildGateV::Xor(a, b) => GateV::Xor(output, a, b),
            BuildGateV::Not(a) => GateV::Not(output, a),
            BuildGateV::Instance(_) => GateV::Instance(output),
            BuildGateV::Witness(_) => GateV::Witness(output),
            BuildGateV::Free(first, last) => GateV::Free(first, last),
        }
    }
}

impl View for BuildGate {
    type V = BuildGateV;

    open spec fn view(&self) -> BuildGateV {
        match *self {
            BuildGate::Constant(value) => BuildGateV::Constant(value@),
            BuildGate::AssertZero(a) => BuildGateV::AssertZero(a),
            BuildGate::Copy(a) => BuildGateV::Copy(a),
            BuildGate::Add(a, b) => BuildGateV::Add(a, b),
            BuildGate::Mul(a, b) => BuildGateV::Mul(a, b),
            BuildGate::AddConstant(a, value) => BuildGateV::AddConstant(a, value@),
            BuildGate::MulConstant(a, value) => BuildGateV::MulConstant(a, value@),
            BuildGate::And(a, b) => BuildGateV::And(a, b),
            BuildGate::Xor(a, b) => BuildGateV::Xor(a, b),
            BuildGate::Not(a) => BuildGateV::Not(a),
            BuildGate::Instance(None) => BuildGateV::Instance(None),
            BuildGate::Instance(Some(value)) => BuildGateV::Instance(Some(value@)),
            BuildGate::Witness(None) => BuildGateV::Witness(None),
            BuildGate::Witness(Some(value)) => BuildGateV::Witness(Some(value@)),
            BuildGate::Free(first, last) => BuildGateV::Free(first, last),
        }
    }
}

/// How much a switch takes and gives.
#[derive(Clone, Copy, Debug, PartialEq, Eq, Hash)]
pub struct SwitchParams {
    pub output_count: usize,
    pub instance_count: usize,
    pub witness_count: usize,
}

/// BuildComplexGate is similar to a complex Gate (Call, Switch or For) but without output wires.
/// Useful in combination with GateBuilder.
#[derive(Clone, Debug, PartialEq, Eq, Hash)]
pub enum BuildComplexGate {
    /// The name of a function, its input wires.
    Call(String, WireList),
    /// The wire that selects a branch, the value that selects each branch, the
    /// branches, what they take and give.
    Switch(WireId, Vec<Value>, Vec<CaseInvoke>, SwitchParams),
}

impl BuildComplexGate {
    /// This gate with its output wires.
    pub fn with_output(self, output: WireList) -> (r: Gate)
        ensures
            r == (match self {
                BuildComplexGate::Call(name, inputs) => Gate::Call(name, output, inputs),
                BuildComplexGate::Switch(condition, cases, branches, _) => Gate::Switch(
                    condition,
                    output,
                    cases,
                    branches,
                ),
            }),
    {
        match self {
            BuildComplexGate::Call(name, input_wires) => Gate::Call(name, output, input_wires),
            BuildComplexGate::Switch(condition, cases, branches, _) => {
                Gate::Switch(condition, output, cases, branches)
            },
        }
    }
}

} // verus!
