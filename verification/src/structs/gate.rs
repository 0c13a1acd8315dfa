//! The gates of a circuit.

use crate::structs::function::{CaseInvoke, ForLoopBody};
use crate::structs::wire::{Value, WireId, WireList};
use vstd::prelude::*;

verus! {

/// A gate. Where a gate has an output wire, it comes first.
#[derive(Debug, PartialEq, Eq, Hash)]
pub enum Gate {
    Constant(WireId, Value),
    AssertZero(WireId),
    Copy(WireId, WireId),
    Add(WireId, WireId, WireId),
    Mul(WireId, WireId, WireId),
    AddConstant(WireId, WireId, Value),
    MulConstant(WireId, WireId, Value),
    And(WireId, WireId, WireId),
    Xor(WireId, WireId, WireId),
    Not(WireId, WireId),
    Instance(WireId),
    Witness(WireId),
    /// Forgets the wires from a first to a last one, or a single wire.
    Free(WireId, Option<WireId>),
    /// Runs a known function: its name, output wires, input wires.
    Call(String, WireList, WireList),
    /// Runs a subcircuit: its output wires, input wires, how many instance and
    /// witness values it takes, and its gates.
    AnonCall(WireList, WireList, usize, usize, Vec<Gate>),
    /// Runs one of several branches: the wire that selects it, the output wires,
    /// the value that selects each branch, the branches.
    Switch(WireId, WireList, Vec<Value>, Vec<CaseInvoke>),
    /// Runs a body once for each value of an iterator: its name, first and last
    /// value, the output wires of all turns, the body.
    For(String, u64, u64, WireList, ForLoopBody),
}

/// A gate as a mathematical value.
pub enum GateV {
    Constant(u64, Seq<u8>),
    AssertZero(u64),
    Copy(u64, u64),
    Add(u64, u64, u64),
    Mul(u64, u64, u64),
    AddConstant(u64, u64, Seq<u8>),
    MulConstant(u64, u64, Seq<u8>),
    And(u64, u64, u64),
    Xor(u64, u64, u64),
    Not(u64, u64),
    Instance(u64),
    Witness(u64),
    Free(u64, Option<u64>),
    /// A gate that runs other gates.
    Compound(Gate),
}

impl View for Gate {
    type V = GateV;

    open spec fn view(&self) -> GateV {
        match *self {
            Gate::Constant(out, value) => GateV::Constant(out, value@),
            Gate::AssertZero(a) => GateV::AssertZero(a),
            Gate::Copy(out, a) => GateV::Copy(out, a),
            Gate::Add(out, a, b) => GateV::Add(out, a, b),
            Gate::Mul(out, a, b) => GateV::Mul(out, a, b),
            Gate::AddConstant(out, a, value) => GateV::AddConstant(out, a, value@),
            Gate::MulConstant(out, a, value) => GateV::MulConstant(out, a, value@),
            Gate::And(out, a, b) => GateV::And(out, a, b),
            Gate::Xor(out, a, b) => GateV::Xor(out, a, b),
            Gate::Not(out, a) => GateV::Not(out, a),
            Gate::Instance(out) => GateV::Instance(out),
            Gate::Witness(out) => GateV::Witness(out),
            Gate::Free(first, last) => GateV::Free(first, last),
            _ => GateV::Compound(*self),
        }
    }
}

/// Several gates as mathematical values.
pub open spec fn gates_of(gates: Seq<Gate>) -> Seq<GateV> {
    gates.map_values(|g: Gate| g@)
}

} // verus!
