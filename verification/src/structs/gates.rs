//! The gates of function bodies, and their binary form.

use crate::error::Error;
use crate::flat::layout::lemma_table_cost;
use crate::flat::model::{stored, table_of, target_at, union_of, Field, Node, MAX_FIELDS};
use crate::flat::reader::{
    byte_at, child_at, count_at, find_child, find_target, long_at, read_byte, read_count, read_long,
    read_value, value_at,
};
use crate::flat::tables::{
    create_union, kept_objects, lemma_child, lemma_long, lemma_union, lemma_union_cost, wrote,
};
use crate::flat::writer::{
    create_bytes, create_references, end_table, layout, objects, objects_at, open_tables, push_long,
    push_reference, start_table, used, MAX_USED,
};
use crate::structs::functions::Block;
use crate::structs::gate::GateV;
use crate::structs::wire::{Value, WireId};
use vstd::prelude::*;

verus! {

/// A gate of a function body, in which wires are numbered by their place among the
/// wires that the function is called with. Where a gate has an output wire, it
/// comes first.
#[derive(Debug, PartialEq, Eq, Hash)]
pub enum Gate {
    Constant(WireId, Value),
    AssertZero(WireId),
    Copy(WireId, WireId),
    Add(WireId, WireId, WireId),
    Mul(WireId, WireId, WireId),
    AddConstant(WireId, WireId, Value),
    MulConstant(WireId, WireId, Value),
    And(WireId, WireId, WireId),
    Xor(WireId, WireId, WireId),
    Not(WireId, WireId),
    Instance(WireId),
    Witness(WireId),
    /// Forgets the wires from a first to a last one, or a single wire.
    Free(WireId, Option<WireId>),
    /// Runs a function: its name, output wires, input wires.
    Call(String, Vec<WireId>, Vec<WireId>),
    /// Runs one of several branches: the wire that selects it, the output wires, the
    /// input wires, how many instance and witness values are taken, the value that
    /// selects each branch, the branches.
    Switch(WireId, Vec<WireId>, Vec<WireId>, usize, usize, Vec<Value>, Vec<Block>),
    /// Defines a function: its name, how many output wires, input wires, instance
    /// values and witness values it has, its body.
    Function(String, usize, usize, usize, usize, Vec<Gate>),
}

/// The gates that have a binary form, as mathematical values.
pub open spec fn coded(g: Gate) -> Option<GateV> {
    match g {
        Gate::Constant(out, value) => Some(GateV::Constant(out, value@)),
        Gate::AssertZero(a) => Some(GateV::AssertZero(a)),
        Gate::Copy(out, a) => Some(GateV::Copy(out, a)),
        Gate::Add(out, a, b) => Some(GateV::Add(out, a, b)),
        Gate::Mul(out, a, b) => Some(GateV::Mul(out, a, b)),
        Gate::AddConstant(out, a, value) => Some(GateV::AddConstant(out, a, value@)),
        Gate::MulConstant(out, a, value) => Some(GateV::MulConstant(out, a, value@)),
        Gate::And(out, a, b) => Some(GateV::And(out, a, b)),
        Gate::Xor(out, a, b) => Some(GateV::Xor(out, a, b)),
        Gate::Not(out, a) => Some(GateV::Not(out, a)),
        _ => None,
    }
}

/// The binary form of a gate: a code and a table of its wires and its constant.
pub open spec fn gate_node(g: GateV) -> Node {
    match g {
        GateV::Constant(out, value) => union_of(
            1,
            table_of(seq![Field::Long(out), Field::Child(Node::Bytes(value))]),
        ),
        GateV::AssertZero(a) => union_of(2, table_of(seq![Field::Long(a)])),
        GateV::Copy(out, a) => union_of(3, table_of(seq![Field::Long(out), Field::Long(a)])),
        GateV::Add(out, a, b) => union_of(
            4,
            table_of(seq![Field::Long(out), Field::Long(a), Field::Long(b)]),
        ),
        GateV::Mul(out, a, b) => union_of(
            5,
            table_of(seq![Field::Long(out), Field::Long(a), Field::Long(b)]),
        ),
        GateV::AddConstant(out, a, value) => union_of(
            6,
            table_of(seq![Field::Long(out), Field::Long(a), Field::Child(Node::Bytes(value))]),
        ),
        GateV::MulConstant(out, a, value) => union_of(
            7,
            table_of(seq![Field::Long(out), Field::Long(a), Field::Child(Node::Bytes(value))]),
        ),
        GateV::And(out, a, b) => union_of(
            8,
            table_of(seq![Field::Long(out), Field::Long(a), Field::Long(b)]),
        ),
        GateV::Xor(out, a, b) => union_of(
            9,
            table_of(seq![Field::Long(out), Field::Long(a), Field::Long(b)]),
        ),
        GateV::Not(out, a) => union_of(10, table_of(seq![Field::Long(out), Field::Long(a)])),
        _ => Node::Bytes(Seq::empty()),
    }
}

/// How many bytes a gate may take up.
pub open spec fn gate_cost(g: GateV) -> nat {
    match g {
        GateV::Constant(_, value) => value.len() + 128,
        GateV::AddConstant(_, _, value) => value.len() + 128,
        GateV::MulConstant(_, _, value) => value.len() + 128,
        _ => 128,
    }
}

/// Wires as fields, followed by a reference if there is one.
pub open spec fn fields_of(wires: Seq<u64>, last: Option<u32>, objects: Map<u32, Node>) -> Seq<
    Field,
> {
    wires.map_values(|w: u64| Field::Long(w)) + (match last {
        Some(o) => seq![Field::Child(objects[o])],
        None => Seq::empty(),
    })
}

/// Writes a table of wires, followed by a reference if there is one.
fn create_wires(
    builder: &mut flatbuffers::FlatBufferBuilder<'static>,
    wires: &Vec<WireId>,
    last: Option<u32>,
) -> (r: u32)
    requires
        open_tables(*old(builder)).len() == 0,
        wires@.len() <= 3,
        last matches Some(o) ==> objects(*old(builder)).contains_key(o),
        used(*old(builder)) + 80 <= MAX_USED,
    ensures
        wrote(
            *old(builder),
            *final(builder),
            r,
            table_of(fields_of(wires@, last, objects(*old(builder)))),
            80,
        ),
{
    let start = start_table(builder);
    let mut k: usize = 0;
    while k < wires.len()
        invariant
            k <= wires@.len() <= 3,
            objects(*builder) == objects(*old(builder)),
            open_tables(*builder).len() == 1,
            open_tables(*builder)[0].0 == start,
            open_tables(*builder)[0].2.len() == MAX_FIELDS,
            open_tables(*builder)[0].1 =~= Seq::new(
                MAX_FIELDS as nat,
                |i: int|
                    if i < k {
                        Some(Field::Long(wires@[i]))
                    } else {
                        None
                    },
            ),
            used(*builder) <= used(*old(builder)) + 16 * k,
            used(*old(builder)) + 80 <= MAX_USED,
        decreases wires@.len() - k,
    {
        push_long(builder, k as i16, wires[k]);
        k = k + 1;
    }
    let ghost fields = fields_of(wires@, last, objects(*old(builder)));
    if let Some(o) = last {
        push_reference(builder, k as i16, o);
    }
    assert(Node::Table(open_tables(*builder)[0].1) == table_of(fields)) by {
        assert(open_tables(*builder)[0].1 =~= table_of(fields)->Table_0);
    }
    proof {
        lemma_table_cost(layout(*builder), start as nat, open_tables(*builder)[0].2);
    }
    end_table(builder, start)
}

/// Writes the binary form of a gate from its code, its wires and its constant.
fn create_gate(
    builder: &mut flatbuffers::FlatBufferBuilder<'static>,
    code: u8,
    wires: Vec<WireId>,
    constant: Option<u32>,
    Ghost(fields): Ghost<Seq<Field>>,
) -> (r: u32)
    requires
        open_tables(*old(builder)).len() == 0,
        wires@.len() <= 3,
        code != 0,
        constant matches Some(o) ==> objects(*old(builder)).contains_key(o),
        used(*old(builder)) + 120 <= MAX_USED,
        fields =~= fields_of(wires@, constant, objects(*old(builder))),
    ensures
        wrote(*old(builder), *final(builder), r, union_of(code, table_of(fields)), 120),
{
    let inner = create_wires(builder, &wires, constant);
    proof {
        lemma_union_cost(layout(*builder));
    }
    create_union(builder, code, inner)
}

impl Gate {
    /// Add this structure into a Flatbuffers message builder. Gates that run or define
    /// other gates, or that take values, have no binary form.
    pub fn build(&self, builder: &mut flatbuffers::FlatBufferBuilder<'static>) -> (r: Option<u32>)
        requires
            open_tables(*old(builder)).len() == 0,
            coded(*self) matches Some(g) ==> used(*old(builder)) + gate_cost(g) <= MAX_USED,
        ensures
            match coded(*self) {
                None => r is None && *final(builder) == *old(builder),
                Some(g) => r is Some && wrote(
                    *old(builder),
                    *final(builder),
                    r->Some_0,
                    gate_node(g),
                    gate_cost(g),
                ),
            },
    {
        let ghost mut middle = *builder;
        let r = match self {
            Gate::Constant(output, bytes) => {
                let constant = create_bytes(builder, bytes.as_slice());
                proof {
                    middle = *builder;
                }
                let wires: Vec<WireId> = vec![*output];
                let ghost fields = seq![Field::Long(*output), Field::Child(Node::Bytes(bytes@))];
                Some(create_gate(builder, 1, wires, Some(constant), Ghost(fields)))
            },
            Gate::AssertZero(input) => {
                let wires: Vec<WireId> = vec![*input];
                let ghost fields = seq![Field::Long(*input)];
                Some(create_gate(builder, 2, wires, None, Ghost(fields)))
            },
            Gate::Copy(output, input) => {
                let wires: Vec<WireId> = vec![*output, *input];
                let ghost fields = seq![Field::Long(*output), Field::Long(*input)];
                Some(create_gate(builder, 3, wires, None, Ghost(fields)))
            },
            Gate::Add(output, left, right) => {
                let wires: Vec<WireId> = vec![*output, *left, *right];
                let ghost fields = seq![
                    Field::Long(*output),
                    Field::Long(*left),
                    Field::Long(*right),
                ];
                Some(create_gate(builder, 4, wires, None, Ghost(fields)))
            },
            Gate::Mul(output, left, right) => {
                let wires: Vec<WireId> = vec![*output, *left, *right];
                let ghost fields = seq![
                    Field::Long(*output),
                    Field::Long(*left),
                    Field::Long(*right),
                ];
                Some(create_gate(builder, 5, wires, None, Ghost(fields)))
            },
            Gate::AddConstant(output, input, bytes) => {
                let constant = create_bytes(builder, bytes.as_slice());
                proof {
                    middle = *builder;
                }
                let wires: Vec<WireId> = vec![*output, *input];
                let ghost fields = seq![
                    Field::Long(*output),
                    Field::Long(*input),
                    Field::Child(Node::Bytes(bytes@)),
                ];
                Some(create_gate(builder, 6, wires, Some(constant), Ghost(fields)))
            },
            Gate::MulConstant(output, input, bytes) => {
                let constant = create_bytes(builder, bytes.as_slice());
                proof {
                    middle = *builder;
                }
                let wires: Vec<WireId> = vec![*output, *input];
                let ghost fields = seq![
                    Field::Long(*output),
                    Field::Long(*input),
                    Field::Child(Node::Bytes(bytes@)),
                ];
                Some(create_gate(builder, 7, wires, Some(constant), Ghost(fields)))
            },
            Gate::And(output, left, right) => {
                let wires: Vec<WireId> = vec![*output, *left, *right];
                let ghost fields = seq![
                    Field::Long(*output),
                    Field::Long(*left),
                    Field::Long(*right),
                ];
                Some(create_gate(builder, 8, wires, None, Ghost(fields)))
            },
            Gate::Xor(output, left, right) => {
                let wires: Vec<WireId> = vec![*output, *left, *right];
                let ghost fields = seq![
                    Field::Long(*output),
                    Field::Long(*left),
                    Field::Long(*right),
                ];
                Some(create_gate(builder, 9, wires, None, Ghost(fields)))
            },
            Gate::Not(output, input) => {
                let wires: Vec<WireId> = vec![*output, *input];
                let ghost fields = seq![Field::Long(*output), Field::Long(*input)];
                Some(create_gate(builder, 10, wires, None, Ghost(fields)))
            },
            _ => None,
        };
        proof {
            if let Some(g) = coded(*self) {
                assert forall|o: u32| objects(*old(builder)).contains_key(o) implies
                    #[trigger] objects(*builder).contains_key(o) && objects(*builder)[o] == objects(
                    *old(builder),
                )[o] by {
                    assert(objects(middle).contains_key(o));
                }
                assert(kept_objects(*old(builder), *builder));
                assert(wrote(*old(builder), *builder, r->Some_0, gate_node(g), gate_cost(g)));
            }
        }
        r
    }
}

pub open spec fn missing_text() -> Seq<char> {
    "Missing field of a gate"@
}

/// The wires and the constant in a table, from the first field on.
pub open spec fn one_at(b: Seq<u8>, t: int) -> Result<u64, Seq<char>> {
    match long_at(b, t, 0) {
        Some(x) => Ok(x),
        None => Err(missing_text()),
    }
}

pub open spec fn two_at(b: Seq<u8>, t: int) -> Result<(u64, u64), Seq<char>> {
    match (long_at(b, t, 0), long_at(b, t, 1)) {
        (Some(x), Some(y)) => Ok((x, y)),
        _ => Err(missing_text()),
    }
}

pub open spec fn three_at(b: Seq<u8>, t: int) -> Result<(u64, u64, u64), Seq<char>> {
    match (long_at(b, t, 0), long_at(b, t, 1), long_at(b, t, 2)) {
        (Some(x), Some(y), Some(z)) => Ok((x, y, z)),
        _ => Err(missing_text()),
    }
}

pub open spec fn constant_at(b: Seq<u8>, t: int) -> Result<(u64, Seq<u8>), Seq<char>> {
    match (long_at(b, t, 0), value_at(b, t, 1)) {
        (Some(x), Some(v)) => Ok((x, v)),
        _ => Err(missing_text()),
    }
}

pub open spec fn two_and_constant_at(b: Seq<u8>, t: int) -> Result<
    (u64, u64, Seq<u8>),
    Seq<char>,
> {
    match (long_at(b, t, 0), long_at(b, t, 1), value_at(b, t, 2)) {
        (Some(x), Some(y), Some(v)) => Ok((x, y, v)),
        _ => Err(missing_text()),
    }
}

/// A gate with a code whose wires and constant are in a table.
pub open spec fn gate_with_code(b: Seq<u8>, code: u8, t: int) -> Result<GateV, Seq<char>> {
    if code == 1 {
        match constant_at(b, t) {
            Ok((out, value)) => Ok(GateV::Constant(out, value)),
            Err(e) => Err(e),
        }
    } else if code == 2 {
        match one_at(b, t) {
            Ok(a) => Ok(GateV::AssertZero(a)),
            Err(e) => Err(e),
        }
    } else if code == 3 || code == 10 {
        match two_at(b, t) {
            Ok((out, a)) => if code == 3 {
                Ok(GateV::Copy(out, a))
            } else {
                Ok(GateV::Not(out, a))
            },
            Err(e) => Err(e),
        }
    } else if code == 6 || code == 7 {
        match two_and_constant_at(b, t) {
            Ok((out, a, value)) => if code == 6 {
                Ok(GateV::AddConstant(out, a, value))
            } else {
                Ok(GateV::MulConstant(out, a, value))
            },
            Err(e) => Err(e),
        }
    } else if code == 4 || code == 5 || code == 8 || code == 9 {
        match three_at(b, t) {
            Ok((out, x, y)) => if code == 4 {
                Ok(GateV::Add(out, x, y))
            } else if code == 5 {
                Ok(GateV::Mul(out, x, y))
            } else if code == 8 {
                Ok(GateV::And(out, x, y))
            } else {
                Ok(GateV::Xor(out, x, y))
            },
            Err(e) => Err(e),
        }
    } else {
        Err("Unknown gate type"@)
    }
}

/// A gate whose binary form lies at a position.
pub open spec fn gate_at(b: Seq<u8>, t: int) -> Result<GateV, Seq<char>> {
    if byte_at(b, t, 0) == 0 {
        Err("No gate type"@)
    } else {
        match child_at(b, t, 1) {
            None => Err(missing_text()),
            Some(inner) => gate_with_code(b, byte_at(b, t, 0), inner),
        }
    }
}

/// Gates that were read, from the `k`-th reference of a vector on.
pub open spec fn gates_from(b: Seq<u8>, p: int, count: nat, k: nat, read: Seq<GateV>) -> Result<
    Seq<GateV>,
    Seq<char>,
>
    decreases count - k,
{
    if k >= count {
        Ok(read)
    } else {
        match target_at(b, p + 4 + 4 * k) {
            None => Err(missing_text()),
            Some(t) => match gate_at(b, t) {
                Err(e) => Err(e),
                Ok(g) => gates_from(b, p, count, k + 1, read.push(g)),
            },
        }
    }
}

/// The gates of a vector at a position.
pub open spec fn gates_at(b: Seq<u8>, p: int) -> Result<Seq<GateV>, Seq<char>> {
    match count_at(b, p) {
        None => Err(missing_text()),
        Some(count) => gates_from(b, p, count, 0, Seq::empty()),
    }
}

/// The mathematical values of gates that have a binary form.
pub open spec fn values_of(gates: Seq<Gate>) -> Seq<GateV> {
    gates.map_values(|g: Gate| coded(g)->Some_0)
}

/// How many bytes a list of gates may take up.
pub open spec fn gates_cost(gates: Seq<Gate>) -> nat
    decreases gates.len(),
{
    if gates.len() == 0 {
        8
    } else {
        gates_cost(gates.drop_last()) + 4 + (match coded(gates.last()) {
            Some(g) => gate_cost(g),
            None => 0,
        })
    }
}

/// Whether all gates have a binary form.
pub open spec fn all_coded(gates: Seq<Gate>) -> bool {
    forall|i: int| 0 <= i < gates.len() ==> coded(#[trigger] gates[i]) is Some
}

/// The binary form of a list of gates that all have one.
pub open spec fn gates_node(gates: Seq<Gate>) -> Node {
    Node::Nodes(gates.map_values(|g: Gate| gate_node(coded(g)->Some_0)))
}

proof fn lemma_gates_cost(gates: Seq<Gate>, k: int)
    requires
        0 <= k <= gates.len(),
    ensures
        gates_cost(gates.take(k)) + 4 * (gates.len() - k) <= gates_cost(gates),
    decreases gates.len() - k,
{
    if k == gates.len() {
        assert(gates.take(k) =~= gates);
    } else {
        lemma_gates_cost(gates, k + 1);
        assert(gates.take(k + 1).drop_last() =~= gates.take(k));
    }
}

impl Gate {
    /// Reads a gate whose binary form lies at a position.
    pub fn try_from_table(b: &[u8], table: usize) -> (r: Result<Gate, Error>)
        ensures
            match r {
                Ok(g) => coded(g) is Some && gate_at(b@, table as int) == Ok::<GateV, Seq<char>>(
                    coded(g)->Some_0,
                ),
                Err(e) => gate_at(b@, table as int) == Err::<GateV, Seq<char>>(e@),
            },
    {
        let code: u8 = read_byte(b, table, 0);
        if code == 0 {
            return Err(Error::new("No gate type"));
        }
        let inner = match find_child(b, table, 1) {
            None => {
                return Err(Error::new("Missing field of a gate"));
            },
            Some(p) => p,
        };
        if code == 1 {
            match (read_long(b, inner, 0), read_value(b, inner, 1)) {
                (Some(output), Some(constant)) => Ok(Gate::Constant(output, constant)),
                _ => Err(Error::new("Missing field of a gate")),
            }
        } else if code == 2 {
            match read_long(b, inner, 0) {
                Some(input) => Ok(Gate::AssertZero(input)),
                None => Err(Error::new("Missing field of a gate")),
            }
        } else if code == 3 || code == 10 {
            match (read_long(b, inner, 0), read_long(b, inner, 1)) {
                (Some(output), Some(input)) => if code == 3 {
                    Ok(Gate::Copy(output, input))
                } else {
                    Ok(Gate::Not(output, input))
                },
                _ => Err(Error::new("Missing field of a gate")),
            }
        } else if code == 6 || code == 7 {
            match (read_long(b, inner, 0), read_long(b, inner, 1), read_value(b, inner, 2)) {
                (Some(output), Some(input), Some(constant)) => if code == 6 {
                    Ok(Gate::AddConstant(output, input, constant))
                } else {
                    Ok(Gate::MulConstant(output, input, constant))
                },
                _ => Err(Error::new("Missing field of a gate")),
            }
        } else if code == 4 || code == 5 || code == 8 || code == 9 {
            match (read_long(b, inner, 0), read_long(b, inner, 1), read_long(b, inner, 2)) {
                (Some(output), Some(left), Some(right)) => if code == 4 {
                    Ok(Gate::Add(output, left, right))
                } else if code == 5 {
                    Ok(Gate::Mul(output, left, right))
                } else if code == 8 {
                    Ok(Gate::And(output, left, right))
                } else {
                    Ok(Gate::Xor(output, left, right))
                },
                _ => Err(Error::new("Missing field of a gate")),
            }
        } else {
            Err(Error::new("Unknown gate type"))
        }
    }

    /// Reads the gates of a vector at a position.
    pub fn try_from_vector(b: &[u8], p: usize) -> (r: Result<Vec<Gate>, Error>)
        ensures
            match r {
                Ok(gates) => all_coded(gates@) && gates_at(b@, p as int) == Ok::<
                    Seq<GateV>,
                    Seq<char>,
                >(values_of(gates@)),
                Err(e) => gates_at(b@, p as int) == Err::<Seq<GateV>, Seq<char>>(e@),
            },
    {
        let count = match read_count(b, p) {
            None => {
                return Err(Error::new("Missing field of a gate"));
            },
            Some(n) => n,
        };
        let mut gates: Vec<Gate> = Vec::new();
        assert(values_of(gates@) =~= Seq::empty());
        let mut k: usize = 0;
        while k < count
            invariant
                k <= count,
                p + 4 + 4 * count <= b.len(),
                count_at(b@, p as int) == Some(count as nat),
                all_coded(gates@),
                gates_at(b@, p as int) == gates_from(
                    b@,
                    p as int,
                    count as nat,
                    k as nat,
                    values_of(gates@),
                ),
            decreases count - k,
        {
            let table = match find_target(b, p + 4 + 4 * k) {
                None => {
                    return Err(Error::new("Missing field of a gate"));
                },
                Some(t) => t,
            };
            let g = match Gate::try_from_table(b, table) {
                Err(e) => {
                    return Err(e);
                },
                Ok(g) => g,
            };
            assert(values_of(gates@.push(g)) =~= values_of(gates@).push(coded(g)->Some_0));
            gates.push(g);
            k = k + 1;
        }
        Ok(gates)
    }

    /// Add a vector of this structure into a Flatbuffers message builder.
    pub fn build_vector(
        builder: &mut flatbuffers::FlatBufferBuilder<'static>,
        gates: &Vec<Gate>,
    ) -> (r: Option<u32>)
        requires
            open_tables(*old(builder)).len() == 0,
            used(*old(builder)) + gates_cost(gates@) <= MAX_USED,
        ensures
            r is Some == all_coded(gates@),
            r is None ==> kept_objects(*old(builder), *final(builder)) && used(*final(builder))
                <= used(*old(builder)) + gates_cost(gates@),
            r matches Some(o) ==> wrote(
                *old(builder),
                *final(builder),
                o,
                gates_node(gates@),
                gates_cost(gates@),
            ),
    {
        let mut offsets: Vec<u32> = Vec::new();
        let mut k: usize = 0;
        while k < gates.len()
            invariant
                k <= gates@.len(),
                offsets@.len() == k,
                open_tables(*builder).len() == 0,
                used(*old(builder)) + gates_cost(gates@) <= MAX_USED,
                used(*builder) + 8 + 4 * k <= used(*old(builder)) + gates_cost(
                    gates@.take(k as int),
                ),
                forall|i: int| 0 <= i < k ==> coded(#[trigger] gates@[i]) is Some,
                forall|i: int|
                    0 <= i < k ==> objects(*builder).contains_key(#[trigger] offsets@[i])
                        && objects(*builder)[offsets@[i]] == gate_node(coded(gates@[i])->Some_0),
                forall|o: u32|
                    objects(*old(builder)).contains_key(o)
                        ==> #[trigger] objects(*builder).contains_key(o)
                        && objects(*builder)[o] == objects(*old(builder))[o],
            decreases gates@.len() - k,
        {
            proof {
                lemma_gates_cost(gates@, k + 1);
                assert(gates@.take(k + 1).drop_last() =~= gates@.take(k as int));
            }
            let ghost before = *builder;
            match gates[k].build(builder) {
                None => {
                    return None;
                },
                Some(o) => {
                    offsets.push(o);
                },
            }
            assert forall|o: u32| objects(*old(builder)).contains_key(o) implies #[trigger] objects(
                *builder,
            ).contains_key(o) && objects(*builder)[o] == objects(*old(builder))[o] by {
                assert(objects(before).contains_key(o));
            }
            assert forall|i: int| 0 <= i < k + 1 implies objects(*builder).contains_key(
                #[trigger] offsets@[i],
            ) && objects(*builder)[offsets@[i]] == gate_node(coded(gates@[i])->Some_0) by {
                if i < k {
                    assert(objects(before).contains_key(offsets@[i]));
                }
            }
            k = k + 1;
        }
        assert(gates@.take(k as int) =~= gates@);
        assert(objects_at(objects(*builder), offsets@) =~= gates@.map_values(
            |g: Gate| gate_node(coded(g)->Some_0),
        ));
        let ghost before = *builder;
        let r = create_references(builder, &offsets);
        assert(used(*builder) <= used(before) + 4 * offsets@.len() + 8);
        assert(wrote(*old(builder), *builder, r, gates_node(gates@), gates_cost(gates@)));
        Some(r)
    }
}

/// Reading a gate back gives what was written.
pub proof fn gate_round_trip(b: Seq<u8>, p: int, g: Gate)
    requires
        coded(g) is Some,
        stored(b, p, gate_node(coded(g)->Some_0)),
    ensures
        gate_at(b, p) == Ok::<GateV, Seq<char>>(coded(g)->Some_0),
{
    let v = coded(g)->Some_0;
    match v {
        GateV::Constant(out, value) => {
            let fields = seq![Field::Long(out), Field::Child(Node::Bytes(value))];
            lemma_union(b, p, 1, table_of(fields));
            let t = child_at(b, p, 1)->Some_0;
            lemma_long(b, t, fields, 0);
            lemma_child(b, t, fields, 1);
        },
        GateV::AssertZero(x) => {
            let fields = seq![Field::Long(x)];
            lemma_union(b, p, 2, table_of(fields));
            lemma_long(b, child_at(b, p, 1)->Some_0, fields, 0);
        },
        GateV::Copy(x, y) => {
            lemma_two(b, p, 3, x, y);
        },
        GateV::Not(x, y) => {
            lemma_two(b, p, 10, x, y);
        },
        GateV::Add(x, y, z) => {
            lemma_three(b, p, 4, x, y, z);
        },
        GateV::Mul(x, y, z) => {
            lemma_three(b, p, 5, x, y, z);
        },
        GateV::And(x, y, z) => {
            lemma_three(b, p, 8, x, y, z);
        },
        GateV::Xor(x, y, z) => {
            lemma_three(b, p, 9, x, y, z);
        },
        GateV::AddConstant(x, y, value) => {
            lemma_two_and_constant(b, p, 6, x, y, value);
        },
        GateV::MulConstant(x, y, value) => {
            lemma_two_and_constant(b, p, 7, x, y, value);
        },
        _ => {},
    }
}

proof fn lemma_gates_from(b: Seq<u8>, p: int, gates: Seq<Gate>, k: nat)
    requires
        all_coded(gates),
        stored(b, p, gates_node(gates)),
        k <= gates.len(),
    ensures
        gates_from(b, p, gates.len(), k, values_of(gates).take(k as int)) == Ok::<
            Seq<GateV>,
            Seq<char>,
        >(values_of(gates)),
    decreases gates.len() - k,
{
    if k < gates.len() {
        let list = gates_node(gates)->Nodes_0;
        assert(list[k as int] == gate_node(coded(gates[k as int])->Some_0));
        let t = target_at(b, p + 4 + 4 * k)->Some_0;
        gate_round_trip(b, t, gates[k as int]);
        assert(values_of(gates).take(k as int).push(values_of(gates)[k as int]) =~= values_of(
            gates,
        ).take(k as int + 1));
        lemma_gates_from(b, p, gates, k + 1);
    } else {
        assert(values_of(gates).take(k as int) =~= values_of(gates));
    }
}

/// Reading a list of gates back gives what was written.
pub proof fn gates_round_trip(b: Seq<u8>, p: int, gates: Seq<Gate>)
    requires
        all_coded(gates),
        stored(b, p, gates_node(gates)),
    ensures
        gates_at(b, p) == Ok::<Seq<GateV>, Seq<char>>(values_of(gates)),
{
    assert(values_of(gates).take(0) =~= Seq::empty());
    lemma_gates_from(b, p, gates, 0);
}

proof fn lemma_two(b: Seq<u8>, p: int, code: u8, x: u64, y: u64)
    requires
        stored(b, p, union_of(code, table_of(seq![Field::Long(x), Field::Long(y)]))),
    ensures
        byte_at(b, p, 0) == code,
        child_at(b, p, 1) is Some,
        two_at(b, child_at(b, p, 1)->Some_0) == Ok::<(u64, u64), Seq<char>>((x, y)),
{
    let fields = seq![Field::Long(x), Field::Long(y)];
    lemma_union(b, p, code, table_of(fields));
    let t = child_at(b, p, 1)->Some_0;
    lemma_long(b, t, fields, 0);
    lemma_long(b, t, fields, 1);
}

proof fn lemma_three(b: Seq<u8>, p: int, code: u8, x: u64, y: u64, z: u64)
    requires
        stored(
            b,
            p,
            union_of(code, table_of(seq![Field::Long(x), Field::Long(y), Field::Long(z)])),
        ),
    ensures
        byte_at(b, p, 0) == code,
        child_at(b, p, 1) is Some,
        three_at(b, child_at(b, p, 1)->Some_0) == Ok::<(u64, u64, u64), Seq<char>>((x, y, z)),
{
    let fields = seq![Field::Long(x), Field::Long(y), Field::Long(z)];
    lemma_union(b, p, code, table_of(fields));
    let t = child_at(b, p, 1)->Some_0;
    lemma_long(b, t, fields, 0);
    lemma_long(b, t, fields, 1);
    lemma_long(b, t, fields, 2);
}

proof fn lemma_two_and_constant(b: Seq<u8>, p: int, code: u8, x: u64, y: u64, value: Seq<u8>)
    requires
        stored(
            b,
            p,
            union_of(
                code,
                table_of(seq![Field::Long(x), Field::Long(y), Field::Child(Node::Bytes(value))]),
            ),
        ),
    ensures
        byte_at(b, p, 0) == code,
        child_at(b, p, 1) is Some,
        two_and_constant_at(b, child_at(b, p, 1)->Some_0) == Ok::<
            (u64, u64, Seq<u8>),
            Seq<char>,
        >((x, y, value)),
{
    let fields = seq![Field::Long(x), Field::Long(y), Field::Child(Node::Bytes(value))];
    lemma_union(b, p, code, table_of(fields));
    let t = child_at(b, p, 1)->Some_0;
    lemma_long(b, t, fields, 0);
    lemma_long(b, t, fields, 1);
    lemma_child(b, t, fields, 2);
}

} // verus!
