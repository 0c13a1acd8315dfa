//! The writing of rank-1 constraint systems, one operation at a time.

use crate::consumers::backend::Answer;
use crate::consumers::plaintext::no_modulus_text;
use crate::error::Error;
use crate::number::{le_bytes, le_value, BigUint};
use crate::structs::r1cs::{
    constraints_of, variables_of, Assignment, BilinearConstraint, CircuitHeader, ConstraintSystem,
    ConstraintV, Variable, VariableV, Variables, VariablesV,
};
use crate::structs::wire::{bytes_of, to_value, Value};
use std::collections::BTreeMap;
use vstd::prelude::*;

verus! {

broadcast use vstd::std_specs::btree::group_btree_axioms;

/// How many constraints go into a message.
pub const CONSTRAINTS_PER_MESSAGE: usize = 100_000;

/// How many private values go into a message.
pub const VALUES_PER_MESSAGE: usize = 100_001;

/// The first variable number that is not given out.
pub const NO_VARIABLE: u64 = 0xffff_ffff_ffff_ffff;

pub open spec fn too_long_text() -> Seq<char> {
    "Vector is bigger than expected."@
}

pub open spec fn other_size_text() -> Seq<char> {
    "values must all be of the same size."@
}

pub open spec fn no_variable_text() -> Seq<char> {
    "No variable is left."@
}

/// Bytes with zeros appended up to a length.
pub open spec fn padded(bytes: Seq<u8>, len: nat) -> Seq<u8> {
    bytes + Seq::new((len - bytes.len()) as nat, |i: int| 0u8)
}

/// The length of the longest of several byte strings.
pub open spec fn longest(list: Seq<Seq<u8>>) -> nat
    decreases list.len(),
{
    if list.len() == 0 {
        0
    } else if list.last().len() >= longest(list.drop_last()) {
        list.last().len()
    } else {
        longest(list.drop_last())
    }
}

/// Several byte strings, each padded to a length, one after the other.
pub open spec fn padded_all(list: Seq<Seq<u8>>, len: nat) -> Seq<u8>
    decreases list.len(),
{
    if list.len() == 0 {
        Seq::empty()
    } else {
        padded_all(list.drop_last(), len) + padded(list.last(), len)
    }
}

/// The length of bytes without the zeros at their end.
pub open spec fn trimmed_len(bytes: Seq<u8>) -> nat
    decreases bytes.len(),
{
    if bytes.len() > 0 && bytes.last() == 0 {
        trimmed_len(bytes.drop_last())
    } else {
        bytes.len()
    }
}

/// The bytes of a number, padded to a length; refused where they are longer.
pub open spec fn padded_number(n: nat, len: nat) -> Result<Seq<u8>, Seq<char>> {
    if le_bytes(n).len() > len {
        Err(too_long_text())
    } else {
        Ok(padded(le_bytes(n), len))
    }
}

/// A list cut into pieces of a given length, followed by what is left, even if that is
/// nothing.
pub open spec fn batches<T>(list: Seq<T>, size: nat) -> Seq<Seq<T>>
    decreases list.len(),
{
    if size == 0 || list.len() < size {
        seq![list]
    } else {
        seq![list.take(size as int)] + batches(list.skip(size as int), size)
    }
}

/// The values of several variables, one after the other.
pub open spec fn joined(list: Seq<VariableV>) -> Seq<u8>
    decreases list.len(),
{
    if list.len() == 0 {
        Seq::empty()
    } else {
        joined(list.drop_last()) + list.last().value
    }
}

/// The numbers of several variables.
pub open spec fn numbers_of(list: Seq<VariableV>) -> Seq<u64> {
    list.map_values(|v: VariableV| v.id)
}

/// Variables with their values.
pub open spec fn gathered_variables(list: Seq<VariableV>) -> VariablesV {
    VariablesV { ids: numbers_of(list), values: Some(joined(list)) }
}

/// A linear combination.
pub open spec fn combination(ids: Seq<u64>, coefficients: Seq<u8>) -> VariablesV {
    VariablesV { ids, values: Some(coefficients) }
}

/// Two coefficients, padded to the same length.
pub open spec fn pair(x: Seq<u8>, y: Seq<u8>) -> Seq<u8> {
    padded_all(seq![x, y], longest(seq![x, y]))
}

/// A constraint system under construction.
#[verifier::ext_equal]
pub struct R1csV {
    /// Whether the values of all variables are known.
    pub use_witness: bool,
    /// Whether the modular reductions are written as constraints of their own.
    pub use_correction: bool,
    /// The characteristic of the field of the circuit, zero while there is none.
    pub modulus: nat,
    /// How many bytes a value has.
    pub byte_len: nat,
    pub field_maximum: Option<Seq<u8>>,
    /// The first variable that is not in use.
    pub free_id: nat,
    /// The instance variables.
    pub instances: Seq<VariableV>,
    pub constraints: Seq<ConstraintV>,
    /// The private variables with their values.
    pub privates: Seq<VariableV>,
    /// The values of all variables.
    pub assignment: Map<u64, nat>,
}

/// A constraint system without constraints.
pub open spec fn empty_r1cs(use_witness: bool, use_correction: bool) -> R1csV {
    R1csV {
        use_witness,
        use_correction,
        modulus: 0,
        byte_len: 0,
        field_maximum: None,
        free_id: 1,
        instances: Seq::empty(),
        constraints: Seq::empty(),
        privates: Seq::empty(),
        assignment: Map::empty(),
    }
}

/// What an operation leaves, and the variable that it gives.
pub type Given = (R1csV, Answer);

/// What an operation leaves, and the variables of its result and of its correction.
pub type Results = (R1csV, Result<(u64, u64), Seq<char>>);

impl R1csV {
    /// A new variable; refused when there is none left.
    pub open spec fn allocated(self) -> Given {
        if self.free_id >= NO_VARIABLE {
            (self, Err(no_variable_text()))
        } else {
            (R1csV { free_id: self.free_id + 1, ..self }, Ok(self.free_id))
        }
    }

    /// Notes the value of a variable, where values are known.
    pub open spec fn assigned(self, id: nat, value: nat) -> R1csV {
        if self.use_witness {
            R1csV { assignment: self.assignment.insert(id as u64, value), ..self }
        } else {
            self
        }
    }

    /// A new instance variable. Its value must have the length of the other ones.
    pub open spec fn with_instance(self, value: nat) -> Given {
        match padded_number(value, self.byte_len) {
            Err(t) => (self, Err(t)),
            Ok(bytes) => if self.instances.len() > 0 && self.instances[0].value.len()
                != bytes.len() {
                (self, Err(other_size_text()))
            } else {
                let (v1, r) = self.allocated();
                match r {
                    Err(t) => (v1, Err(t)),
                    Ok(id) => (
                        R1csV {
                            instances: v1.instances.push(VariableV { id: id as u64, value: bytes }),
                            ..v1
                        }.assigned(id, value),
                        Ok(id),
                    ),
                }
            },
        }
    }

    /// Appends the value of a private variable, where values are known.
    pub open spec fn with_private(self, id: u64, value: nat) -> (R1csV, Result<(), Seq<char>>) {
        if !self.use_witness {
            (self, Ok(()))
        } else {
            match padded_number(value, self.byte_len) {
                Err(t) => (self, Err(t)),
                Ok(bytes) => (
                    R1csV { privates: self.privates.push(VariableV { id, value: bytes }), ..self },
                    Ok(()),
                ),
            }
        }
    }

    /// A new private variable. Its value must be given if and only if values are
    /// known.
    pub open spec fn with_witness(self, value: Option<nat>) -> Given {
        let (v1, r) = self.allocated();
        match r {
            Err(t) => (v1, Err(t)),
            Ok(id) => match value {
                None => if self.use_witness {
                    (v1, Err("Inconsistency."@))
                } else {
                    (v1, Ok(id))
                },
                Some(x) => if !self.use_witness {
                    (v1, Err("Inconsistency."@))
                } else {
                    let (v2, pushed) = v1.with_private(id as u64, x);
                    match pushed {
                        Err(t) => (v2, Err(t)),
                        Ok(_) => (v2.assigned(id, x), Ok(id)),
                    }
                },
            },
        }
    }

    /// The variables of a result and, where reductions are written, of the multiple of
    /// the modulus that it is reduced by. Without the latter its variable is zero.
    pub open spec fn result_variables(self) -> Results {
        let (v1, out) = self.allocated();
        match out {
            Err(t) => (v1, Err(t)),
            Ok(out) => if self.use_correction {
                let (v2, correction) = v1.allocated();
                match correction {
                    Err(t) => (v2, Err(t)),
                    Ok(correction) => (v2, Ok((out as u64, correction as u64))),
                }
            } else {
                (v1, Ok((out as u64, 0)))
            },
        }
    }

    /// Notes the value of a result, `total` before it is reduced, and that of its
    /// correction.
    pub open spec fn with_result(self, out: u64, correction: u64, total: nat) -> (
        R1csV,
        Result<(), Seq<char>>,
    ) {
        if self.modulus == 0 {
            (self, Err(no_modulus_text()))
        } else {
            let (v1, r1) = if self.use_correction {
                self.with_private(correction, total / self.modulus)
            } else {
                (self, Ok(()))
            };
            match r1 {
                Err(t) => (v1, Err(t)),
                Ok(_) => {
                    let (v2, r2) = v1.with_private(out, total % self.modulus);
                    match r2 {
                        Err(t) => (v2, Err(t)),
                        Ok(_) => (v2.assigned(out as nat, total % self.modulus), Ok(())),
                    }
                },
            }
        }
    }

    /// The variables of a result whose value, where values are known, is `total`
    /// reduced by the modulus, or the words of why `total` is not known.
    pub open spec fn result_of(self, total: Answer) -> Results {
        let (v1, ids) = self.result_variables();
        match ids {
            Err(t) => (v1, Err(t)),
            Ok((out, correction)) => if !self.use_witness {
                (v1, Ok((out, correction)))
            } else {
                match total {
                    Err(t) => (v1, Err(t)),
                    Ok(total) => {
                        let (v2, r) = v1.with_result(out, correction, total);
                        match r {
                            Err(t) => (v2, Err(t)),
                            Ok(_) => (v2, Ok((out, correction))),
                        }
                    },
                }
            },
        }
    }

    /// The value of a variable.
    pub open spec fn value(self, id: nat, text: Seq<char>) -> Answer {
        if self.assignment.contains_key(id as u64) {
            Ok(self.assignment[id as u64])
        } else {
            Err(text)
        }
    }

    /// A result together with the multiple of the modulus that it is reduced by.
    pub open spec fn unreduced(self, out: u64, correction: u64) -> VariablesV {
        if self.use_correction {
            combination(seq![out, correction], pair(seq![1u8], le_bytes(self.modulus)))
        } else {
            combination(seq![out], seq![1u8])
        }
    }

    /// One more constraint for a result, if there is one.
    pub open spec fn constrained(
        results: Results,
        constraint: spec_fn(VariablesV) -> ConstraintV,
    ) -> Given {
        let (v, ids) = results;
        match ids {
            Err(t) => (v, Err(t)),
            Ok((out, correction)) => (
                R1csV {
                    constraints: v.constraints.push(constraint(v.unreduced(out, correction))),
                    ..v
                },
                Ok(out as nat),
            ),
        }
    }

    /// The claim that a variable is zero.
    pub open spec fn zero_claimed(self, a: nat) -> Given {
        (
            R1csV {
                constraints: self.constraints.push(
                    ConstraintV {
                        a: combination(seq![a as u64], seq![1u8]),
                        b: combination(seq![0u64], seq![1u8]),
                        c: combination(seq![0u64], seq![0u8]),
                    },
                ),
                ..self
            },
            Ok(0),
        )
    }

    /// The sum of two variables.
    pub open spec fn sum(self, a: nat, b: nat) -> Given {
        let total = match self.value(a, "Add(a): Value does not exist."@) {
            Err(t) => Err(t),
            Ok(x) => match self.value(b, "Add(b): Value does not exist."@) {
                Err(t) => Err(t),
                Ok(y) => Ok(x + y),
            },
        };
        R1csV::constrained(
            self.result_of(total),
            |result: VariablesV|
                ConstraintV {
                    a: result,
                    b: combination(seq![0u64], seq![1u8]),
                    c: combination(seq![a as u64, b as u64], seq![1u8, 1u8]),
                },
        )
    }

    /// The product of two variables.
    pub open spec fn product(self, a: nat, b: nat) -> Given {
        let total = match self.value(a, "Multiply(a): Value does not exist."@) {
            Err(t) => Err(t),
            Ok(x) => match self.value(b, "Multiply(b): Value does not exist."@) {
                Err(t) => Err(t),
                Ok(y) => Ok(x * y),
            },
        };
        R1csV::constrained(
            self.result_of(total),
            |result: VariablesV|
                ConstraintV {
                    a: combination(seq![a as u64], seq![1u8]),
                    b: combination(seq![b as u64], seq![1u8]),
                    c: result,
                },
        )
    }

    /// The sum of a variable and a constant.
    pub open spec fn constant_sum(self, a: nat, c: nat) -> Given {
        let total = match self.value(a, "AddConstant: Value does not exist."@) {
            Err(t) => Err(t),
            Ok(x) => Ok(x + c),
        };
        R1csV::constrained(
            self.result_of(total),
            |result: VariablesV|
                ConstraintV {
                    a: result,
                    b: combination(seq![0u64], seq![1u8]),
                    c: combination(seq![a as u64, 0u64], pair(seq![1u8], le_bytes(c))),
                },
        )
    }

    /// The product of a variable and a constant.
    pub open spec fn constant_product(self, a: nat, c: nat) -> Given {
        let total = match self.value(a, "MulConstant: Value does not exist."@) {
            Err(t) => Err(t),
            Ok(x) => Ok(x * c),
        };
        R1csV::constrained(
            self.result_of(total),
            |result: VariablesV|
                ConstraintV {
                    a: combination(seq![a as u64], le_bytes(c)),
                    b: combination(seq![0u64], seq![1u8]),
                    c: result,
                },
        )
    }

    /// The choice of a field.
    pub open spec fn over_field(self, modulus: Seq<u8>, degree: u32) -> Given {
        let v1 = R1csV {
            modulus: le_value(modulus),
            byte_len: trimmed_len(modulus),
            ..self
        }.assigned(0, 1);
        if v1.modulus == 0 {
            (v1, Err(no_modulus_text()))
        } else {
            (
                R1csV { field_maximum: Some(le_bytes((v1.modulus - 1) as nat)), ..v1 },
                if degree != 1 {
                    Err("Degree higher than 1 is not supported"@)
                } else {
                    Ok(0)
                },
            )
        }
    }
}

/// A whole statement: its public part, its constraints and its private values, each in
/// as many messages as it takes.
#[derive(Debug, PartialEq, Eq, Hash)]
pub struct R1csStatement {
    pub header: CircuitHeader,
    pub constraint_systems: Vec<ConstraintSystem>,
    pub witnesses: Vec<Assignment>,
}

/// The constraints of several messages.
pub open spec fn systems_of(list: Seq<ConstraintSystem>) -> Seq<Seq<ConstraintV>> {
    list.map_values(|s: ConstraintSystem| constraints_of(s.constraints@))
}

/// The values of several messages.
pub open spec fn assignments_of(list: Seq<Assignment>) -> Seq<VariablesV> {
    list.map_values(|w: Assignment| w.assigned_variables@)
}

/// Several lists of variables, each put together. A list without variables that follows
/// others has no values either, where `begun` tells whether the first one follows others.
pub open spec fn gathered_after(lists: Seq<Seq<VariableV>>, begun: bool) -> Seq<VariablesV> {
    lists.map(
        |i: int, list: Seq<VariableV>|
            if (begun || i > 0) && list.len() == 0 {
                VariablesV { ids: Seq::empty(), values: None }
            } else {
                gathered_variables(list)
            },
    )
}

/// Several lists of variables, each put together. A list without variables that follows
/// others has no values either.
pub open spec fn gathered_all(lists: Seq<Seq<VariableV>>) -> Seq<VariablesV> {
    gathered_after(lists, false)
}

/// Whether a statement holds a constraint system.
pub open spec fn holds(statement: R1csStatement, v: R1csV) -> bool {
    &&& statement.header.instance_variables@ == gathered_variables(v.instances)
    &&& statement.header.free_variable_id == v.free_id
    &&& (match statement.header.field_maximum {
        Some(m) => v.field_maximum == Some(m@),
        None => v.field_maximum is None,
    })
    &&& systems_of(statement.constraint_systems@) == batches(
        v.constraints,
        CONSTRAINTS_PER_MESSAGE as nat,
    )
    &&& assignments_of(statement.witnesses@) == (if v.use_witness {
        gathered_all(batches(v.privates, VALUES_PER_MESSAGE as nat))
    } else {
        Seq::empty()
    })
}

/// Puts variables together.
fn gather_variables(list: &Vec<Variable>) -> (r: Variables)
    ensures
        r@ == gathered_variables(variables_of(list@)),
{
    let mut variable_ids: Vec<u64> = Vec::new();
    let mut values: Vec<u8> = Vec::new();
    let mut k: usize = 0;
    while k < list.len()
        invariant
            k <= list@.len(),
            variable_ids@ =~= numbers_of(variables_of(list@).take(k as int)),
            values@ == joined(variables_of(list@).take(k as int)),
        decreases list@.len() - k,
    {
        let ghost next = variables_of(list@).take(k + 1);
        assert(next.drop_last() =~= variables_of(list@).take(k as int));
        assert(next.last() == list@[k as int]@);
        variable_ids.push(list[k].id);
        let mut value = to_value(list[k].value.as_slice());
        values.append(&mut value);
        k = k + 1;
    }
    assert(variables_of(list@).take(k as int) =~= variables_of(list@));
    Variables { variable_ids, values: Some(values) }
}

/// Cuts constraints into messages.
fn split_constraints(list: Vec<BilinearConstraint>) -> (r: Vec<ConstraintSystem>)
    ensures
        systems_of(r@) == batches(
            constraints_of(list@),
            CONSTRAINTS_PER_MESSAGE as nat,
        ),
{
    let mut r: Vec<ConstraintSystem> = Vec::new();
    let mut left = list;
    let ghost size = CONSTRAINTS_PER_MESSAGE as nat;
    assert(systems_of(r@) + batches(constraints_of(left@), size) =~= batches(
        constraints_of(list@),
        size,
    ));
    while left.len() >= CONSTRAINTS_PER_MESSAGE
        invariant
            size == CONSTRAINTS_PER_MESSAGE,
            systems_of(r@) + batches(constraints_of(left@), size) == batches(
                constraints_of(list@),
                size,
            ),
        decreases left@.len(),
    {
        let ghost whole = constraints_of(left@);
        let ghost before = r@;
        let rest = left.split_off(CONSTRAINTS_PER_MESSAGE);
        assert(constraints_of(left@) =~= whole.take(size as int));
        assert(constraints_of(rest@) =~= whole.skip(size as int));
        let message = ConstraintSystem { constraints: left };
        r.push(message);
        left = rest;
        assert(systems_of(r@) =~= systems_of(before).push(
            whole.take(size as int),
        ));
        assert(systems_of(r@) + batches(constraints_of(left@), size)
            =~= systems_of(before) + batches(whole, size));
    }
    let ghost before = r@;
    let ghost last = constraints_of(left@);
    r.push(ConstraintSystem { constraints: left });
    assert(systems_of(r@) =~= systems_of(before) + seq![last]);
    r
}

/// Cuts private values into messages.
fn split_witnesses(list: Vec<Variable>) -> (r: Vec<Assignment>)
    ensures
        assignments_of(r@) == gathered_all(
            batches(variables_of(list@), VALUES_PER_MESSAGE as nat),
        ),
{
    let mut r: Vec<Assignment> = Vec::new();
    let mut left = list;
    let ghost size = VALUES_PER_MESSAGE as nat;
    let ghost all = gathered_all(batches(variables_of(list@), size));
    assert(assignments_of(r@) + gathered_after(batches(variables_of(left@), size), false)
        =~= all);
    while left.len() >= VALUES_PER_MESSAGE
        invariant
            size == VALUES_PER_MESSAGE,
            all == gathered_all(batches(variables_of(list@), size)),
            assignments_of(r@) + gathered_after(
                batches(variables_of(left@), size),
                r@.len() > 0,
            ) == all,
        decreases left@.len(),
    {
        let ghost whole = variables_of(left@);
        let ghost before = r@;
        let rest = left.split_off(VALUES_PER_MESSAGE);
        assert(variables_of(left@) =~= whole.take(size as int));
        assert(variables_of(rest@) =~= whole.skip(size as int));
        let message = Assignment { assigned_variables: gather_variables(&left) };
        r.push(message);
        left = rest;
        assert(assignments_of(r@) =~= assignments_of(before).push(
            gathered_variables(whole.take(size as int)),
        ));
        assert(gathered_after(batches(whole, size), before.len() > 0) =~= seq![
            gathered_variables(whole.take(size as int)),
        ] + gathered_after(batches(variables_of(left@), size), true));
        assert(assignments_of(r@) + gathered_after(batches(variables_of(left@), size), true)
            =~= assignments_of(before) + gathered_after(batches(whole, size), before.len() > 0));
    }
    let ghost before = r@;
    let ghost last = variables_of(left@);
    let assigned_variables = if r.len() > 0 && left.len() == 0 {
        let none: Vec<u64> = Vec::new();
        assert(none@ =~= Seq::empty());
        Variables { variable_ids: none, values: None }
    } else {
        gather_variables(&left)
    };
    let ghost written = assigned_variables@;
    r.push(Assignment { assigned_variables });
    assert(assignments_of(r@) =~= assignments_of(before) + seq![written]);
    assert(batches(last, size) =~= seq![last]);
    assert(gathered_after(batches(last, size), before.len() > 0) =~= seq![written]);
    r
}

/// Pads little-endian bytes with zeros up to a length.
pub fn pad_le_u8_vec(v: Value, len: usize) -> (r: Value)
    requires
        v@.len() <= len,
    ensures
        r@ == padded(v@, len as nat),
{
    let mut r = v;
    while r.len() < len
        invariant
            v@.len() <= r@.len() <= len,
            r@ =~= v@ + Seq::new((r@.len() - v@.len()) as nat, |i: int| 0u8),
        decreases len - r@.len(),
    {
        r.push(0u8);
    }
    r
}

proof fn lemma_longest(list: Seq<Seq<u8>>)
    ensures
        forall|i: int| 0 <= i < list.len() ==> (#[trigger] list[i]).len() <= longest(list),
    decreases list.len(),
{
    if list.len() > 0 {
        lemma_longest(list.drop_last());
        assert forall|i: int| 0 <= i < list.len() implies (#[trigger] list[i]).len() <= longest(
            list,
        ) by {
            if i < list.len() - 1 {
                assert(list.drop_last()[i] == list[i]);
            }
        }
    }
}

/// Pads several little-endian numbers to the length of the longest one, and puts them
/// one after the other.
pub fn pad_to_max(vals: Vec<Value>) -> (r: Vec<u8>)
    requires
        vals@.len() > 0,
    ensures
        r@ == padded_all(bytes_of(vals@), longest(bytes_of(vals@))),
{
    let mut max_len: usize = 0;
    let mut k: usize = 0;
    while k < vals.len()
        invariant
            k <= vals@.len(),
            max_len == longest(bytes_of(vals@).take(k as int)),
        decreases vals@.len() - k,
    {
        assert(bytes_of(vals@).take(k + 1).drop_last() =~= bytes_of(vals@).take(k as int));
        assert(bytes_of(vals@).take(k + 1).last() == vals@[k as int]@);
        if vals[k].len() >= max_len {
            max_len = vals[k].len();
        }
        k = k + 1;
    }
    assert(bytes_of(vals@).take(k as int) =~= bytes_of(vals@));
    proof {
        lemma_longest(bytes_of(vals@));
    }
    let mut r: Vec<u8> = Vec::new();
    let mut j: usize = 0;
    while j < vals.len()
        invariant
            j <= vals@.len(),
            max_len == longest(bytes_of(vals@)),
            forall|i: int|
                0 <= i < bytes_of(vals@).len() ==> (#[trigger] bytes_of(vals@)[i]).len()
                    <= longest(bytes_of(vals@)),
            r@ == padded_all(bytes_of(vals@).take(j as int), max_len as nat),
        decreases vals@.len() - j,
    {
        assert(bytes_of(vals@).take(j + 1).drop_last() =~= bytes_of(vals@).take(j as int));
        assert(bytes_of(vals@)[j as int] == vals@[j as int]@);
        let mut padded_value = pad_le_u8_vec(to_value(vals[j].as_slice()), max_len);
        r.append(&mut padded_value);
        j = j + 1;
    }
    assert(bytes_of(vals@).take(j as int) =~= bytes_of(vals@));
    r
}

/// Two coefficients, padded to the same length.
fn pad_pair(x: Value, y: Value) -> (r: Vec<u8>)
    ensures
        r@ == pair(x@, y@),
{
    let vals: Vec<Value> = vec![x, y];
    assert(bytes_of(vals@) =~= seq![x@, y@]);
    pad_to_max(vals)
}

fn make_combination(ids: Vec<u64>, coefficients: Vec<u8>) -> (r: Variables)
    ensures
        r@ == combination(ids@, coefficients@),
{
    Variables { variable_ids: ids, values: Some(coefficients) }
}

/// A variable with the coefficient one.
fn single(id: u64) -> (r: Variables)
    ensures
        r@ == combination(seq![id], seq![1u8]),
{
    let ids: Vec<u64> = vec![id];
    let coefficients: Vec<u8> = vec![1u8];
    assert(ids@ =~= seq![id]);
    assert(coefficients@ =~= seq![1u8]);
    make_combination(ids, coefficients)
}

/// A constraint system under construction.
pub struct R1csBuilder {
    use_witness: bool,
    use_correction: bool,
    src_modulus: BigUint,
    byte_len: usize,
    field_maximum: Option<Vec<u8>>,
    free_variable_id: u64,
    instances: Vec<Variable>,
    constraints: Vec<BilinearConstraint>,
    witnesses: Vec<Variable>,
    all_assignment: BTreeMap<u64, BigUint>,
}

impl View for R1csBuilder {
    type V = R1csV;

    closed spec fn view(&self) -> R1csV {
        R1csV {
            use_witness: self.use_witness,
            use_correction: self.use_correction,
            modulus: self.src_modulus@,
            byte_len: self.byte_len as nat,
            field_maximum: match self.field_maximum {
                Some(v) => Some(v@),
                None => None,
            },
            free_id: self.free_variable_id as nat,
            instances: variables_of(self.instances@),
            constraints: constraints_of(self.constraints@),
            privates: variables_of(self.witnesses@),
            assignment: self.all_assignment@.map_values(|x: BigUint| x@),
        }
    }
}

/// Whether an executable step gave what it should.
pub open spec fn gave(after: R1csBuilder, r: Result<u64, Error>, given: Given) -> bool {
    after@ == given.0 && (match r {
        Ok(id) => given.1 == Ok::<nat, Seq<char>>(id as nat),
        Err(e) => given.1 == Err::<nat, Seq<char>>(e@),
    })
}

/// Whether an executable step did what it should.
pub open spec fn did(
    after: R1csBuilder,
    r: Result<(), Error>,
    done: (R1csV, Result<(), Seq<char>>),
) -> bool {
    after@ == done.0 && (match r {
        Ok(_) => done.1 == Ok::<(), Seq<char>>(()),
        Err(e) => done.1 == Err::<(), Seq<char>>(e@),
    })
}

/// Whether an executable step gave the variables that it should.
pub open spec fn gave_results(
    after: R1csBuilder,
    r: Result<(u64, u64), Error>,
    results: Results,
) -> bool {
    after@ == results.0 && (match r {
        Ok(ids) => results.1 == Ok::<(u64, u64), Seq<char>>(ids),
        Err(e) => results.1 == Err::<(u64, u64), Seq<char>>(e@),
    })
}

/// Whether a value is the given one.
pub open spec fn same_value(r: Result<BigUint, Error>, answer: Answer) -> bool {
    match r {
        Ok(x) => answer == Ok::<nat, Seq<char>>(x@),
        Err(e) => answer == Err::<nat, Seq<char>>(e@),
    }
}

/// The bytes of a number, padded to a length.
fn pad_number(n: &BigUint, len: usize) -> (r: Result<Value, Error>)
    ensures
        padded_number(n@, len as nat) == (match r {
            Ok(v) => Ok::<Seq<u8>, Seq<char>>(v@),
            Err(e) => Err::<Seq<u8>, Seq<char>>(e@),
        }),
{
    let bytes = n.to_bytes_le();
    if bytes.len() > len {
        Err(Error::new("Vector is bigger than expected."))
    } else {
        Ok(pad_le_u8_vec(bytes, len))
    }
}

impl R1csBuilder {
    /// A constraint system without constraints.
    pub fn new(use_witness: bool, use_correction: bool) -> (r: Self)
        ensures
            r@ == empty_r1cs(use_witness, use_correction),
    {
        let r = R1csBuilder {
            use_witness,
            use_correction,
            src_modulus: BigUint::zero(),
            byte_len: 0,
            field_maximum: None,
            free_variable_id: 1,
            instances: Vec::new(),
            constraints: Vec::new(),
            witnesses: Vec::new(),
            all_assignment: BTreeMap::new(),
        };
        assert(r@ =~= empty_r1cs(use_witness, use_correction));
        r
    }

    /// A new variable.
    fn allocate_var(&mut self) -> (r: Result<u64, Error>)
        ensures
            gave(*final(self), r, old(self)@.allocated()),
    {
        if self.free_variable_id == NO_VARIABLE {
            return Err(Error::new("No variable is left."));
        }
        let id: u64 = self.free_variable_id;
        self.free_variable_id = id + 1;
        Ok(id)
    }

    fn make_assignment(&mut self, id: u64, val: BigUint)
        ensures
            final(self)@ == old(self)@.assigned(id as nat, val@),
    {
        if self.use_witness {
            self.all_assignment.insert(id, val);
            assert(self.all_assignment@.map_values(|x: BigUint| x@)
                =~= old(self).all_assignment@.map_values(|x: BigUint| x@).insert(id, val@));
        }
        assert(self@ =~= old(self)@.assigned(id as nat, val@));
    }

    /// A new instance variable.
    pub fn push_instance(&mut self, val: BigUint) -> (r: Result<u64, Error>)
        ensures
            gave(*final(self), r, old(self)@.with_instance(val@)),
    {
        let value = match pad_number(&val, self.byte_len) {
            Err(e) => {
                return Err(e);
            },
            Ok(value) => value,
        };
        if self.instances.len() > 0 && self.instances[0].value.len() != value.len() {
            return Err(Error::new("values must all be of the same size."));
        }
        let id = match self.allocate_var() {
            Err(e) => {
                return Err(e);
            },
            Ok(id) => id,
        };
        let variable = Variable { id, value };
        assert(variables_of(self.instances@.push(variable)) =~= variables_of(self.instances@).push(
            variable@,
        ));
        self.instances.push(variable);
        self.make_assignment(id, val);
        Ok(id)
    }

    /// Appends the value of a private variable, where values are known.
    fn push_witness(&mut self, id: u64, val: &BigUint) -> (r: Result<(), Error>)
        ensures
            did(*final(self), r, old(self)@.with_private(id, val@)),
    {
        if self.use_witness {
            let value = match pad_number(val, self.byte_len) {
                Err(e) => {
                    return Err(e);
                },
                Ok(value) => value,
            };
            let variable = Variable { id, value };
            assert(variables_of(self.witnesses@.push(variable)) =~= variables_of(
                self.witnesses@,
            ).push(variable@));
            self.witnesses.push(variable);
        }
        Ok(())
    }

    /// A new private variable.
    pub fn push_private(&mut self, val: Option<BigUint>) -> (r: Result<u64, Error>)
        ensures
            gave(
                *final(self),
                r,
                old(self)@.with_witness(
                    (match val {
                        Some(x) => Some(x@),
                        None => None,
                    }),
                ),
            ),
    {
        let id = match self.allocate_var() {
            Err(e) => {
                return Err(e);
            },
            Ok(id) => id,
        };
        match val {
            None => if self.use_witness {
                Err(Error::new("Inconsistency."))
            } else {
                Ok(id)
            },
            Some(x) => {
                if !self.use_witness {
                    return Err(Error::new("Inconsistency."));
                }
                match self.push_witness(id, &x) {
                    Err(e) => Err(e),
                    Ok(_) => {
                        self.make_assignment(id, x);
                        Ok(id)
                    },
                }
            },
        }
    }

    /// The value of a variable.
    fn value_of(&self, id: u64, text: &str) -> (r: Result<BigUint, Error>)
        ensures
            same_value(r, self@.value(id as nat, text@)),
    {
        match self.all_assignment.get(&id) {
            None => Err(Error::new(text)),
            Some(x) => Ok(x.clone()),
        }
    }

    /// The variables of a result and of its correction.
    fn allocate_result(&mut self) -> (r: Result<(u64, u64), Error>)
        ensures
            gave_results(*final(self), r, old(self)@.result_variables()),
    {
        let out = match self.allocate_var() {
            Err(e) => {
                return Err(e);
            },
            Ok(id) => id,
        };
        if self.use_correction {
            match self.allocate_var() {
                Err(e) => Err(e),
                Ok(correction) => Ok((out, correction)),
            }
        } else {
            Ok((out, 0))
        }
    }

    /// Notes the value of a result and that of its correction.
    fn assign_result(&mut self, out: u64, correction_wire: u64, total: BigUint) -> (r: Result<
        (),
        Error,
    >)
        ensures
            did(*final(self), r, old(self)@.with_result(out, correction_wire, total@)),
    {
        if self.src_modulus.is_zero() {
            return Err(Error::new("Modulus is not initiated, used `set_field()` before calling."));
        }
        let correction = total.divided_by(&self.src_modulus);
        let o_val = total.modulo(&self.src_modulus);
        if self.use_correction {
            match self.push_witness(correction_wire, &correction) {
                Err(e) => {
                    return Err(e);
                },
                Ok(_) => {},
            }
        }
        match self.push_witness(out, &o_val) {
            Err(e) => {
                return Err(e);
            },
            Ok(_) => {},
        }
        self.make_assignment(out, o_val);
        Ok(())
    }

    /// A result together with the multiple of the modulus that it is reduced by.
    fn result_combination(&self, out: u64, correction_wire: u64) -> (r: Variables)
        ensures
            r@ == self@.unreduced(out, correction_wire),
    {
        if self.use_correction {
            let ids: Vec<u64> = vec![out, correction_wire];
            let unit: Vec<u8> = vec![1u8];
            assert(ids@ =~= seq![out, correction_wire]);
            assert(unit@ =~= seq![1u8]);
            make_combination(ids, pad_pair(unit, self.src_modulus.to_bytes_le()))
        } else {
            single(out)
        }
    }

    fn push_constraint(&mut self, a: Variables, b: Variables, c: Variables)
        ensures
            final(self)@ == (R1csV {
                constraints: old(self)@.constraints.push(ConstraintV { a: a@, b: b@, c: c@ }),
                ..old(self)@
            }),
    {
        let constraint = BilinearConstraint {
            linear_combination_a: a,
            linear_combination_b: b,
            linear_combination_c: c,
        };
        assert(constraints_of(self.constraints@.push(constraint)) =~= constraints_of(
            self.constraints@,
        ).push(constraint@));
        self.constraints.push(constraint);
    }

    /// The claim that a variable is zero.
    pub fn assert_zero(&mut self, wire: u64)
        ensures
            final(self)@ == old(self)@.zero_claimed(wire as nat).0,
    {
        let one: Vec<u64> = vec![0u64];
        let zero: Vec<u8> = vec![0u8];
        assert(one@ =~= seq![0u64]);
        assert(zero@ =~= seq![0u8]);
        self.push_constraint(single(wire), single(0), make_combination(one, zero));
    }

    /// The variables of a result, with their values where these are known.
    fn make_result(&mut self, total: Result<BigUint, Error>) -> (r: Result<(u64, u64), Error>)
        ensures
            forall|t: Answer|
                same_value(total, t) ==> gave_results(
                    *final(self),
                    r,
                    #[trigger] old(self)@.result_of(t),
                ),
    {
        let (out, correction_wire): (u64, u64) = match self.allocate_result() {
            Err(e) => {
                return Err(e);
            },
            Ok(ids) => ids,
        };
        if self.use_witness {
            match total {
                Err(e) => {
                    return Err(e);
                },
                Ok(total) => match self.assign_result(out, correction_wire, total) {
                    Err(e) => {
                        return Err(e);
                    },
                    Ok(_) => {},
                },
            }
        }
        Ok((out, correction_wire))
    }

    /// The sum of two variables.
    pub fn add_variables(&mut self, a: u64, b: u64) -> (r: Result<u64, Error>)
        ensures
            gave(*final(self), r, old(self)@.sum(a as nat, b as nat)),
    {
        let total = match self.value_of(a, "Add(a): Value does not exist.") {
            Err(e) => Err(e),
            Ok(a_val) => match self.value_of(b, "Add(b): Value does not exist.") {
                Err(e) => Err(e),
                Ok(b_val) => Ok(a_val.plus(&b_val)),
            },
        };
        let (out, correction_wire): (u64, u64) = match self.make_result(total) {
            Err(e) => {
                return Err(e);
            },
            Ok(ids) => ids,
        };
        let ids: Vec<u64> = vec![a, b];
        let units: Vec<u8> = vec![1u8, 1u8];
        assert(ids@ =~= seq![a, b]);
        assert(units@ =~= seq![1u8, 1u8]);
        self.push_constraint(
            self.result_combination(out, correction_wire),
            single(0),
            make_combination(ids, units),
        );
        Ok(out)
    }

    /// The product of two variables.
    pub fn multiply_variables(&mut self, a: u64, b: u64) -> (r: Result<u64, Error>)
        ensures
            gave(*final(self), r, old(self)@.product(a as nat, b as nat)),
    {
        let total = match self.value_of(a, "Multiply(a): Value does not exist.") {
            Err(e) => Err(e),
            Ok(a_val) => match self.value_of(b, "Multiply(b): Value does not exist.") {
                Err(e) => Err(e),
                Ok(b_val) => Ok(a_val.times(&b_val)),
            },
        };
        let (out, correction_wire): (u64, u64) = match self.make_result(total) {
            Err(e) => {
                return Err(e);
            },
            Ok(ids) => ids,
        };
        self.push_constraint(single(a), single(b), self.result_combination(out, correction_wire));
        Ok(out)
    }

    /// The sum of a variable and a constant.
    pub fn add_to_constant(&mut self, a: u64, b: &BigUint) -> (r: Result<u64, Error>)
        ensures
            gave(*final(self), r, old(self)@.constant_sum(a as nat, b@)),
    {
        let total = match self.value_of(a, "AddConstant: Value does not exist.") {
            Err(e) => Err(e),
            Ok(a_val) => Ok(a_val.plus(b)),
        };
        let (out, correction_wire): (u64, u64) = match self.make_result(total) {
            Err(e) => {
                return Err(e);
            },
            Ok(ids) => ids,
        };
        let ids: Vec<u64> = vec![a, 0u64];
        let unit: Vec<u8> = vec![1u8];
        assert(ids@ =~= seq![a, 0u64]);
        assert(unit@ =~= seq![1u8]);
        self.push_constraint(
            self.result_combination(out, correction_wire),
            single(0),
            make_combination(ids, pad_pair(unit, b.to_bytes_le())),
        );
        Ok(out)
    }

    /// The product of a variable and a constant.
    pub fn multiply_by_constant(&mut self, a: u64, b: &BigUint) -> (r: Result<u64, Error>)
        ensures
            gave(*final(self), r, old(self)@.constant_product(a as nat, b@)),
    {
        let total = match self.value_of(a, "MulConstant: Value does not exist.") {
            Err(e) => Err(e),
            Ok(a_val) => Ok(a_val.times(b)),
        };
        let (out, correction_wire): (u64, u64) = match self.make_result(total) {
            Err(e) => {
                return Err(e);
            },
            Ok(ids) => ids,
        };
        let ids: Vec<u64> = vec![a];
        assert(ids@ =~= seq![a]);
        self.push_constraint(
            make_combination(ids, b.to_bytes_le()),
            single(0),
            self.result_combination(out, correction_wire),
        );
        Ok(out)
    }

    /// The modulus minus one.
    pub fn minus_one(&self) -> (r: Result<BigUint, Error>)
        ensures
            same_value(
                r,
                if self@.modulus == 0 {
                    Err(no_modulus_text())
                } else {
                    Ok((self@.modulus - 1) as nat)
                },
            ),
    {
        if self.src_modulus.is_zero() {
            return Err(Error::new("Modulus is not initiated, used `set_field()` before calling."));
        }
        Ok(self.src_modulus.minus(&BigUint::one()))
    }

    /// Chooses the field.
    pub fn set_field(&mut self, modulus: &[u8], degree: u32) -> (r: Result<(), Error>)
        ensures
            final(self)@ == old(self)@.over_field(modulus@, degree).0,
            old(self)@.over_field(modulus@, degree).1 == (match r {
                Ok(_) => Ok::<nat, Seq<char>>(0),
                Err(e) => Err::<nat, Seq<char>>(e@),
            }),
    {
        // This assumes that finite field elements can be zero padded in their byte reprs. For prime
        // fields, this assumes that the byte representation is little-endian.
        let mut len: usize = modulus.len();
        assert(modulus@.take(len as int) =~= modulus@);
        while len > 0 && modulus[len - 1] == 0
            invariant
                len <= modulus@.len(),
                trimmed_len(modulus@) == trimmed_len(modulus@.take(len as int)),
            decreases len,
        {
            assert(modulus@.take(len as int).drop_last() =~= modulus@.take(len - 1));
            len = len - 1;
        }
        self.src_modulus = BigUint::from_bytes_le(modulus);
        self.byte_len = len;
        self.make_assignment(0, BigUint::one());
        match self.minus_one() {
            Err(e) => {
                return Err(e);
            },
            Ok(maximum) => {
                self.field_maximum = Some(maximum.to_bytes_le());
            },
        }
        if degree != 1 {
            Err(Error::new("Degree higher than 1 is not supported"))
        } else {
            Ok(())
        }
    }

    /// The whole statement.
    pub fn finish(self) -> (r: R1csStatement)
        ensures
            holds(r, self@),
    {
        let header = CircuitHeader {
            instance_variables: gather_variables(&self.instances),
            free_variable_id: self.free_variable_id,
            field_maximum: self.field_maximum,
        };
        let constraint_systems = split_constraints(self.constraints);
        let witnesses: Vec<Assignment> = if self.use_witness {
            split_witnesses(self.witnesses)
        } else {
            let none: Vec<Assignment> = Vec::new();
            assert(assignments_of(none@) =~= Seq::empty());
            none
        };
        R1csStatement { header, constraint_systems, witnesses }
    }
}

} // verus!
