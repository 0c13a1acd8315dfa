//! Rank-1 constraint systems, as the zkInterface format has them.

use crate::number::le_value;
use vstd::prelude::*;

verus! {

/// Variables with their values or coefficients, all of the same size and one after
/// the other in `values`.
#[derive(Clone, Debug, PartialEq, Eq, Hash)]
pub struct Variables {
    pub variable_ids: Vec<u64>,
    pub values: Option<Vec<u8>>,
}

/// A variable with its value or coefficient.
#[derive(Clone, Debug, PartialEq, Eq, Hash)]
pub struct Variable {
    pub id: u64,
    pub value: Vec<u8>,
}

/// The claim that the product of two linear combinations is a third one.
#[derive(Clone, Debug, PartialEq, Eq, Hash)]
pub struct BilinearConstraint {
    pub linear_combination_a: Variables,
    pub linear_combination_b: Variables,
    pub linear_combination_c: Variables,
}

#[derive(Clone, Debug, PartialEq, Eq, Hash)]
pub struct ConstraintSystem {
    pub constraints: Vec<BilinearConstraint>,
}

/// The public part of a statement: the instance variables with their values, the
/// first variable that is not in use, and the largest field element.
#[derive(Clone, Debug, PartialEq, Eq, Hash)]
pub struct CircuitHeader {
    pub instance_variables: Variables,
    pub free_variable_id: u64,
    pub field_maximum: Option<Vec<u8>>,
}

/// The values of private variables.
#[derive(Clone, Debug, PartialEq, Eq, Hash)]
pub struct Assignment {
    pub assigned_variables: Variables,
}

/// A message of a statement in constraints.
#[derive(Clone, Debug, PartialEq, Eq, Hash)]
pub enum R1csMessage {
    Header(CircuitHeader),
    Constraints(ConstraintSystem),
    Witness(Assignment),
    /// A message that says nothing of the statement.
    Other,
}

/// A variable as a mathematical value.
pub struct VariableV {
    pub id: u64,
    pub value: Seq<u8>,
}

impl View for Variable {
    type V = VariableV;

    open spec fn view(&self) -> VariableV {
        VariableV { id: self.id, value: self.value@ }
    }
}

/// Variables as a mathematical value.
#[verifier::ext_equal]
pub struct VariablesV {
    pub ids: Seq<u64>,
    pub values: Option<Seq<u8>>,
}

impl View for Variables {
    type V = VariablesV;

    open spec fn view(&self) -> VariablesV {
        VariablesV {
            ids: self.variable_ids@,
            values: match self.values {
                Some(v) => Some(v@),
                None => None,
            },
        }
    }
}

/// A constraint as a mathematical value.
#[verifier::ext_equal]
pub struct ConstraintV {
    pub a: VariablesV,
    pub b: VariablesV,
    pub c: VariablesV,
}

impl View for BilinearConstraint {
    type V = ConstraintV;

    open spec fn view(&self) -> ConstraintV {
        ConstraintV {
            a: self.linear_combination_a@,
            b: self.linear_combination_b@,
            c: self.linear_combination_c@,
        }
    }
}

/// Several constraints as mathematical values.
pub open spec fn constraints_of(list: Seq<BilinearConstraint>) -> Seq<ConstraintV> {
    list.map_values(|c: BilinearConstraint| c@)
}

impl VariablesV {
    /// All values, one after the other.
    pub open spec fn bytes(self) -> Seq<u8> {
        match self.values {
            Some(v) => v,
            None => Seq::empty(),
        }
    }

    /// How many bytes a value has.
    pub open spec fn stride(self) -> nat {
        if self.ids.len() == 0 {
            0
        } else {
            self.bytes().len() / self.ids.len()
        }
    }

    /// The variables, each with its own value.
    pub open spec fn split(self) -> Seq<VariableV> {
        Seq::new(
            self.ids.len(),
            |i: int|
                VariableV {
                    id: self.ids[i],
                    value: self.bytes().subrange(
                        self.stride() * i,
                        self.stride() * (i + 1),
                    ),
                },
        )
    }
}

/// The values that variables are listed with.
pub open spec fn listed(list: Seq<VariableV>) -> Map<u64, nat>
    decreases list.len(),
{
    if list.len() == 0 {
        Map::empty()
    } else {
        listed(list.drop_last()).insert(list.last().id, le_value(list.last().value))
    }
}

/// The sum of terms, each a coefficient times the value of its variable.
pub open spec fn weighed(terms: Seq<VariableV>, values: Map<u64, nat>) -> nat
    decreases terms.len(),
{
    if terms.len() == 0 {
        0
    } else {
        weighed(terms.drop_last(), values) + le_value(terms.last().value) * values[terms.last().id]
    }
}

impl ConstraintV {
    /// Whether values meet this constraint as natural numbers.
    pub open spec fn met_exactly(self, values: Map<u64, nat>) -> bool {
        weighed(self.a.split(), values) * weighed(self.b.split(), values) == weighed(
            self.c.split(),
            values,
        )
    }

    /// Whether values meet this constraint in the integers modulo a number.
    pub open spec fn met_modulo(self, values: Map<u64, nat>, modulus: nat) -> bool {
        (weighed(self.a.split(), values) * weighed(self.b.split(), values)) % modulus == weighed(
            self.c.split(),
            values,
        ) % modulus
    }
}

/// Several variables as mathematical values.
pub open spec fn variables_of(list: Seq<Variable>) -> Seq<VariableV> {
    list.map_values(|v: Variable| v@)
}

/// `zkinterface::Variables::get_variables`: each variable with its share of the
/// values, which all have the same size; without values, each has an empty one.
#[verifier::external_body]
fn split_variables(ids: &Vec<u64>, values: &Option<Vec<u8>>) -> (r: Vec<Variable>)
    ensures
        variables_of(r@) == (VariablesV {
            ids: ids@,
            values: match *values {
                Some(v) => Some(v@),
                None => None,
            },
        }).split(),
{
    zkinterface::Variables { variable_ids: ids.clone(), values: values.clone() }
        .get_variables()
        .iter()
        .map(|v| Variable { id: v.id, value: v.value.to_vec() })
        .collect()
}

impl Variables {
    /// The variables, each with its own value.
    pub fn get_variables(&self) -> (r: Vec<Variable>)
        ensures
            variables_of(r@) == self@.split(),
    {
        split_variables(&self.variable_ids, &self.values)
    }
}

/// The numbers from 1 up to a limit, which is left out.
pub open spec fn ids_below(limit: u64) -> Seq<u64> {
    if limit == 0 {
        Seq::empty()
    } else {
        Seq::new((limit - 1) as nat, |i: int| (i + 1) as u64)
    }
}

/// The private variables of a statement: all in use but the instance variables.
pub open spec fn witness_ids(instance_ids: Seq<u64>, free_variable_id: u64) -> Seq<u64> {
    ids_below(free_variable_id).filter(|id: u64| !instance_ids.contains(id))
}

/// `zkinterface::CircuitHeader::list_witness_ids`: the variables from 1 up to the
/// first free one that are no instance variables, in ascending order.
#[verifier::external_body]
fn other_ids(instance_ids: &Vec<u64>, free_variable_id: u64) -> (r: Vec<u64>)
    ensures
        r@ == witness_ids(instance_ids@, free_variable_id),
{
    zkinterface::CircuitHeader {
        instance_variables: zkinterface::Variables {
            variable_ids: instance_ids.clone(),
            values: None,
        },
        free_variable_id,
        field_maximum: None,
        configuration: None,
    }.list_witness_ids()
}

impl CircuitHeader {
    /// Enumerate the IDs of witness variables based on a header.
    pub fn list_witness_ids(&self) -> (r: Vec<u64>)
        ensures
            r@ == witness_ids(self.instance_variables@.ids, self.free_variable_id),
    {
        other_ids(&self.instance_variables.variable_ids, self.free_variable_id)
    }
}

} // verus!
