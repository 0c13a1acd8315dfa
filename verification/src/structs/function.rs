//! Functions, and the ways in which gates run them.

use crate::structs::gate::Gate;
use crate::structs::iterators::IterExprList;
use crate::structs::wire::WireList;
use std::rc::Rc;
use vstd::prelude::*;

verus! {

/// What a branch of a switch runs.
#[derive(Debug, PartialEq, Eq, Hash)]
pub enum CaseInvoke {
    /// A known function: its name and input wires.
    AbstractGateCall(String, WireList),
    /// A subcircuit: its input wires, how many instance and witness values it
    /// takes, and its gates.
    AbstractAnonCall(WireList, usize, usize, Vec<Gate>),
}

/// What a loop runs in each turn.
#[derive(Debug, PartialEq, Eq, Hash)]
pub enum ForLoopBody {
    /// A known function: its name, output and input wires.
    IterExprCall(String, IterExprList, IterExprList),
    /// A subcircuit: its output and input wires, how many instance and witness
    /// values it takes, and its gates.
    IterExprAnonCall(IterExprList, IterExprList, usize, usize, Vec<Gate>),
}

/// A function: a named subcircuit. Those who keep it share its body.
#[derive(Clone, Debug, PartialEq, Eq, Hash)]
pub struct Function {
    pub name: String,
    pub output_count: usize,
    pub input_count: usize,
    pub instance_count: usize,
    pub witness_count: usize,
    pub body: Rc<Vec<Gate>>,
}

impl Function {
    pub fn new(
        name: String,
        output_count: usize,
        input_count: usize,
        instance_count: usize,
        witness_count: usize,
        body: Vec<Gate>,
    ) -> (r: Self)
        ensures
            r.name == name,
            r.output_count == output_count,
            r.input_count == input_count,
            r.instance_count == instance_count,
            r.witness_count == witness_count,
            r.body == body,
    {
        Function {
            name,
            output_count,
            input_count,
            instance_count,
            witness_count,
            body: Rc::new(body),
        }
    }
}

} // verus!
