//! Function bodies: their binary form, and the wires that they are called with.

use crate::error::Error;
use crate::flat::layout::lemma_table_cost;
use crate::flat::model::{stored, table_of, target_at, Field, Node};
use crate::flat::reader::{child_at, count_at, find_child, find_target, read_count};
use crate::flat::tables::{kept_objects, lemma_child, wrote};
use crate::flat::writer::{
    create_references, end_table, layout, objects, objects_at, open_tables, push_reference,
    start_table, used, MAX_USED,
};
use crate::structs::gate::GateV;
use crate::structs::gates::{
    all_coded, gates_at, gates_cost, gates_node, gates_round_trip, missing_text, values_of, Gate,
};
use crate::structs::wire::{bytes_of, to_value, Value, WireId};
use vstd::prelude::*;

verus! {

/// A list of gates.
#[derive(Debug, PartialEq, Eq, Hash)]
pub struct Block(pub Vec<Gate>);

/// The binary form of a list of gates: a table whose only field is the list.
pub open spec fn block_node(gates: Seq<Gate>) -> Node {
    table_of(seq![Field::Child(gates_node(gates))])
}

/// How many bytes a list of gates and its table may take up.
pub open spec fn block_cost(gates: Seq<Gate>) -> nat {
    gates_cost(gates) + 32
}

/// The gates of the block whose binary form lies at a position.
pub open spec fn block_at(b: Seq<u8>, t: int) -> Result<Seq<GateV>, Seq<char>> {
    match child_at(b, t, 0) {
        None => Err("Missing subcircuit in block"@),
        Some(p) => gates_at(b, p),
    }
}

/// The gates of blocks that were read, from the `k`-th reference of a vector on.
pub open spec fn blocks_from(
    b: Seq<u8>,
    p: int,
    count: nat,
    k: nat,
    read: Seq<Seq<GateV>>,
) -> Result<Seq<Seq<GateV>>, Seq<char>>
    decreases count - k,
{
    if k >= count {
        Ok(read)
    } else {
        match target_at(b, p + 4 + 4 * k) {
            None => Err(missing_text()),
            Some(t) => match block_at(b, t) {
                Err(e) => Err(e),
                Ok(gates) => blocks_from(b, p, count, k + 1, read.push(gates)),
            },
        }
    }
}

/// The gates of the blocks of a vector at a position.
pub open spec fn blocks_at(b: Seq<u8>, p: int) -> Result<Seq<Seq<GateV>>, Seq<char>> {
    match count_at(b, p) {
        None => Err(missing_text()),
        Some(count) => blocks_from(b, p, count, 0, Seq::empty()),
    }
}

/// The gates of several blocks.
pub open spec fn block_values(blocks: Seq<Block>) -> Seq<Seq<GateV>> {
    blocks.map_values(|block: Block| values_of(block.0@))
}

/// Whether all gates of several blocks have a binary form.
pub open spec fn all_blocks_coded(blocks: Seq<Block>) -> bool {
    forall|i: int| 0 <= i < blocks.len() ==> all_coded((#[trigger] blocks[i]).0@)
}

/// The binary form of several blocks.
pub open spec fn blocks_node(blocks: Seq<Block>) -> Node {
    Node::Nodes(blocks.map_values(|block: Block| block_node(block.0@)))
}

/// How many bytes several blocks may take up.
pub open spec fn blocks_cost(blocks: Seq<Block>) -> nat
    decreases blocks.len(),
{
    if blocks.len() == 0 {
        8
    } else {
        blocks_cost(blocks.drop_last()) + 4 + block_cost(blocks.last().0@)
    }
}

proof fn lemma_blocks_cost(blocks: Seq<Block>, k: int)
    requires
        0 <= k <= blocks.len(),
    ensures
        blocks_cost(blocks.take(k)) + 4 * (blocks.len() - k) <= blocks_cost(blocks),
    decreases blocks.len() - k,
{
    if k == blocks.len() {
        assert(blocks.take(k) =~= blocks);
    } else {
        lemma_blocks_cost(blocks, k + 1);
        assert(blocks.take(k + 1).drop_last() =~= blocks.take(k));
    }
}

impl Block {
    /// Serialize this structure into a Flatbuffer message. There is no binary form if
    /// a gate has none.
    pub fn build(&self, builder: &mut flatbuffers::FlatBufferBuilder<'static>) -> (r: Option<u32>)
        requires
            open_tables(*old(builder)).len() == 0,
            used(*old(builder)) + block_cost(self.0@) <= MAX_USED,
        ensures
            r is Some == all_coded(self.0@),
            r is None ==> kept_objects(*old(builder), *final(builder)) && used(*final(builder))
                <= used(*old(builder)) + block_cost(self.0@),
            r matches Some(o) ==> wrote(
                *old(builder),
                *final(builder),
                o,
                block_node(self.0@),
                block_cost(self.0@),
            ),
    {
        let impl_gates = match Gate::build_vector(builder, &self.0) {
            None => {
                return None;
            },
            Some(o) => o,
        };
        let start = start_table(builder);
        push_reference(builder, 0, impl_gates);
        let ghost fields = seq![Field::Child(gates_node(self.0@))];
        assert(Node::Table(open_tables(*builder)[0].1) == table_of(fields)) by {
            assert(open_tables(*builder)[0].1 =~= table_of(fields)->Table_0);
        }
        proof {
            lemma_table_cost(layout(*builder), start as nat, open_tables(*builder)[0].2);
        }
        Some(end_table(builder, start))
    }

    /// Reads a block whose binary form lies at a position.
    pub fn try_from_table(b: &[u8], table: usize) -> (r: Result<Block, Error>)
        ensures
            match r {
                Ok(block) => all_coded(block.0@) && block_at(b@, table as int) == Ok::<
                    Seq<GateV>,
                    Seq<char>,
                >(values_of(block.0@)),
                Err(e) => block_at(b@, table as int) == Err::<Seq<GateV>, Seq<char>>(e@),
            },
    {
        match find_child(b, table, 0) {
            None => Err(Error::new("Missing subcircuit in block")),
            Some(p) => match Gate::try_from_vector(b, p) {
                Err(e) => Err(e),
                Ok(gates) => Ok(Block(gates)),
            },
        }
    }

    /// Convert from Flatbuffers vector of directives into owned structure.
    pub fn try_from_vector(b: &[u8], p: usize) -> (r: Result<Vec<Block>, Error>)
        ensures
            match r {
                Ok(blocks) => all_blocks_coded(blocks@) && blocks_at(b@, p as int) == Ok::<
                    Seq<Seq<GateV>>,
                    Seq<char>,
                >(block_values(blocks@)),
                Err(e) => blocks_at(b@, p as int) == Err::<Seq<Seq<GateV>>, Seq<char>>(e@),
            },
    {
        let count = match read_count(b, p) {
            None => {
                return Err(Error::new("Missing field of a gate"));
            },
            Some(n) => n,
        };
        let mut directives: Vec<Block> = Vec::new();
        assert(block_values(directives@) =~= Seq::empty());
        let mut k: usize = 0;
        while k < count
            invariant
                k <= count,
                p + 4 + 4 * count <= b.len(),
                count_at(b@, p as int) == Some(count as nat),
                all_blocks_coded(directives@),
                blocks_at(b@, p as int) == blocks_from(
                    b@,
                    p as int,
                    count as nat,
                    k as nat,
                    block_values(directives@),
                ),
            decreases count - k,
        {
            let table = match find_target(b, p + 4 + 4 * k) {
                None => {
                    return Err(Error::new("Missing field of a gate"));
                },
                Some(t) => t,
            };
            let block = match Block::try_from_table(b, table) {
                Err(e) => {
                    return Err(e);
                },
                Ok(block) => block,
            };
            assert(block_values(directives@.push(block)) =~= block_values(directives@).push(
                values_of(block.0@),
            ));
            directives.push(block);
            k = k + 1;
        }
        Ok(directives)
    }

    /// Add a vector of this structure into a Flatbuffers message builder.
    pub fn build_vector(
        builder: &mut flatbuffers::FlatBufferBuilder<'static>,
        directives: &Vec<Block>,
    ) -> (r: Option<u32>)
        requires
            open_tables(*old(builder)).len() == 0,
            used(*old(builder)) + blocks_cost(directives@) <= MAX_USED,
        ensures
            r is Some == all_blocks_coded(directives@),
            r is None ==> kept_objects(*old(builder), *final(builder)) && used(*final(builder))
                <= used(*old(builder)) + blocks_cost(directives@),
            r matches Some(o) ==> wrote(
                *old(builder),
                *final(builder),
                o,
                blocks_node(directives@),
                blocks_cost(directives@),
            ),
    {
        let mut offsets: Vec<u32> = Vec::new();
        let mut k: usize = 0;
        while k < directives.len()
            invariant
                k <= directives@.len(),
                offsets@.len() == k,
                open_tables(*builder).len() == 0,
                used(*old(builder)) + blocks_cost(directives@) <= MAX_USED,
                used(*builder) + 8 + 4 * k <= used(*old(builder)) + blocks_cost(
                    directives@.take(k as int),
                ),
                forall|i: int| 0 <= i < k ==> all_coded((#[trigger] directives@[i]).0@),
                forall|i: int|
                    0 <= i < k ==> objects(*builder).contains_key(#[trigger] offsets@[i])
                        && objects(*builder)[offsets@[i]] == block_node(directives@[i].0@),
                forall|o: u32|
                    objects(*old(builder)).contains_key(o)
                        ==> #[trigger] objects(*builder).contains_key(o)
                        && objects(*builder)[o] == objects(*old(builder))[o],
            decreases directives@.len() - k,
        {
            proof {
                lemma_blocks_cost(directives@, k + 1);
                assert(directives@.take(k + 1).drop_last() =~= directives@.take(k as int));
            }
            let ghost before = *builder;
            let built = directives[k].build(builder);
            assert(kept_objects(before, *builder)) by {
                if let Some(o) = built {
                    assert(wrote(
                        before,
                        *builder,
                        o,
                        block_node(directives@[k as int].0@),
                        block_cost(directives@[k as int].0@),
                    ));
                }
            }
            assert forall|o: u32| objects(*old(builder)).contains_key(o) implies #[trigger] objects(
                *builder,
            ).contains_key(o) && objects(*builder)[o] == objects(*old(builder))[o] by {
                assert(objects(before).contains_key(o));
            }
            match built {
                None => {
                    return None;
                },
                Some(o) => {
                    offsets.push(o);
                },
            }
            assert forall|i: int| 0 <= i < k + 1 implies objects(*builder).contains_key(
                #[trigger] offsets@[i],
            ) && objects(*builder)[offsets@[i]] == block_node(directives@[i].0@) by {
                if i < k {
                    assert(objects(before).contains_key(offsets@[i]));
                }
            }
            k = k + 1;
        }
        assert(directives@.take(k as int) =~= directives@);
        assert(objects_at(objects(*builder), offsets@) =~= directives@.map_values(
            |block: Block| block_node(block.0@),
        ));
        let ghost before = *builder;
        let r = create_references(builder, &offsets);
        assert(used(*builder) <= used(before) + 4 * offsets@.len() + 8);
        assert(wrote(
            *old(builder),
            *builder,
            r,
            blocks_node(directives@),
            blocks_cost(directives@),
        ));
        Some(r)
    }
}

proof fn lemma_block(b: Seq<u8>, p: int, gates: Seq<Gate>)
    requires
        all_coded(gates),
        stored(b, p, block_node(gates)),
    ensures
        block_at(b, p) == Ok::<Seq<GateV>, Seq<char>>(values_of(gates)),
{
    lemma_child(b, p, seq![Field::Child(gates_node(gates))], 0);
    gates_round_trip(b, child_at(b, p, 0)->Some_0, gates);
}

proof fn lemma_blocks_from(b: Seq<u8>, p: int, blocks: Seq<Block>, k: nat)
    requires
        all_blocks_coded(blocks),
        stored(b, p, blocks_node(blocks)),
        k <= blocks.len(),
    ensures
        blocks_from(b, p, blocks.len(), k, block_values(blocks).take(k as int)) == Ok::<
            Seq<Seq<GateV>>,
            Seq<char>,
        >(block_values(blocks)),
    decreases blocks.len() - k,
{
    if k < blocks.len() {
        let list = blocks_node(blocks)->Nodes_0;
        assert(list[k as int] == block_node(blocks[k as int].0@));
        lemma_block(b, target_at(b, p + 4 + 4 * k)->Some_0, blocks[k as int].0@);
        assert(block_values(blocks).take(k as int).push(block_values(blocks)[k as int])
            =~= block_values(blocks).take(k as int + 1));
        lemma_blocks_from(b, p, blocks, k + 1);
    } else {
        assert(block_values(blocks).take(k as int) =~= block_values(blocks));
    }
}

/// Reading blocks back gives what was written.
pub proof fn blocks_round_trip(b: Seq<u8>, p: int, blocks: Seq<Block>)
    requires
        all_blocks_coded(blocks),
        stored(b, p, blocks_node(blocks)),
    ensures
        blocks_at(b, p) == Ok::<Seq<Seq<GateV>>, Seq<char>>(block_values(blocks)),
{
    assert(block_values(blocks).take(0) =~= Seq::empty());
    lemma_blocks_from(b, p, blocks, 0);
}

/// Whether a wire has a place among given wires.
pub open spec fn placed(id: u64, wires: Seq<u64>) -> bool {
    id < wires.len()
}

pub open spec fn all_placed(ids: Seq<u64>, wires: Seq<u64>) -> bool {
    forall|i: int| 0 <= i < ids.len() ==> placed(#[trigger] ids[i], wires)
}

/// Whether a gate can be given the wires of a call: each wire has a place among
/// them, and no function is defined in it.
pub open spec fn translatable(g: Gate, wires: Seq<u64>) -> bool
    decreases g,
{
    match g {
        Gate::Constant(out, _) => placed(out, wires),
        Gate::AssertZero(a) => placed(a, wires),
        Gate::Copy(out, a) => placed(out, wires) && placed(a, wires),
        Gate::Add(out, a, b) => placed(out, wires) && placed(a, wires) && placed(b, wires),
        Gate::Mul(out, a, b) => placed(out, wires) && placed(a, wires) && placed(b, wires),
        Gate::AddConstant(out, a, _) => placed(out, wires) && placed(a, wires),
        Gate::MulConstant(out, a, _) => placed(out, wires) && placed(a, wires),
        Gate::And(out, a, b) => placed(out, wires) && placed(a, wires) && placed(b, wires),
        Gate::Xor(out, a, b) => placed(out, wires) && placed(a, wires) && placed(b, wires),
        Gate::Not(out, a) => placed(out, wires) && placed(a, wires),
        Gate::Instance(out) => placed(out, wires),
        Gate::Witness(out) => placed(out, wires),
        Gate::Free(first, last) => placed(first, wires) && (last matches Some(l) ==> placed(
            l,
            wires,
        )),
        Gate::Call(_, outs, ins) => all_placed(outs@, wires) && all_placed(ins@, wires),
        Gate::Switch(condition, outs, ins, _, _, _, branches) => {
            &&& placed(condition, wires)
            &&& all_placed(outs@, wires)
            &&& all_placed(ins@, wires)
            &&& forall|i: int|
                0 <= i < branches@.len() ==> all_translatable((#[trigger] branches@[i]).0@, wires)
        },
        Gate::Function(..) => false,
    }
}

pub open spec fn all_translatable(gates: Seq<Gate>, wires: Seq<u64>) -> bool
    decreases gates,
{
    forall|i: int| 0 <= i < gates.len() ==> translatable(#[trigger] gates[i], wires)
}

/// The wires at several places.
pub open spec fn wires_at(ids: Seq<u64>, wires: Seq<u64>) -> Seq<u64> {
    ids.map_values(|id: u64| wires[id as int])
}

/// Whether a gate is another one that was given the wires of a call.
pub open spec fn translated(g: Gate, wires: Seq<u64>, r: Gate) -> bool
    decreases g,
{
    match (g, r) {
        (Gate::Constant(o, v), Gate::Constant(o2, v2)) => o2 == wires[o as int] && v2@ == v@,
        (Gate::AssertZero(a), Gate::AssertZero(a2)) => a2 == wires[a as int],
        (Gate::Copy(o, a), Gate::Copy(o2, a2)) => o2 == wires[o as int] && a2 == wires[a as int],
        (Gate::Add(o, a, b), Gate::Add(o2, a2, b2)) => o2 == wires[o as int] && a2
            == wires[a as int] && b2 == wires[b as int],
        (Gate::Mul(o, a, b), Gate::Mul(o2, a2, b2)) => o2 == wires[o as int] && a2
            == wires[a as int] && b2 == wires[b as int],
        (Gate::AddConstant(o, a, v), Gate::AddConstant(o2, a2, v2)) => o2 == wires[o as int] && a2
            == wires[a as int] && v2@ == v@,
        (Gate::MulConstant(o, a, v), Gate::MulConstant(o2, a2, v2)) => o2 == wires[o as int] && a2
            == wires[a as int] && v2@ == v@,
        (Gate::And(o, a, b), Gate::And(o2, a2, b2)) => o2 == wires[o as int] && a2
            == wires[a as int] && b2 == wires[b as int],
        (Gate::Xor(o, a, b), Gate::Xor(o2, a2, b2)) => o2 == wires[o as int] && a2
            == wires[a as int] && b2 == wires[b as int],
        (Gate::Not(o, a), Gate::Not(o2, a2)) => o2 == wires[o as int] && a2 == wires[a as int],
        (Gate::Instance(o), Gate::Instance(o2)) => o2 == wires[o as int],
        (Gate::Witness(o), Gate::Witness(o2)) => o2 == wires[o as int],
        (Gate::Free(f, l), Gate::Free(f2, l2)) => f2 == wires[f as int] && l2 == (match l {
            Some(l) => Some(wires[l as int]),
            None => None,
        }),
        (Gate::Call(n, o, i), Gate::Call(n2, o2, i2)) => n2@ == n@ && o2@ == wires_at(o@, wires)
            && i2@ == wires_at(i@, wires),
        (Gate::Switch(c, o, i, ni, nw, cs, bs), Gate::Switch(c2, o2, i2, ni2, nw2, cs2, bs2)) => {
            &&& c2 == wires[c as int]
            &&& o2@ == wires_at(o@, wires)
            &&& i2@ == wires_at(i@, wires)
            &&& ni2 == ni
            &&& nw2 == nw
            &&& bytes_of(cs2@) == bytes_of(cs@)
            &&& bs2@.len() == bs@.len()
            &&& forall|k: int|
                0 <= k < bs@.len() ==> all_translated((#[trigger] bs@[k]).0@, wires, bs2@[k].0@)
        },
        _ => false,
    }
}

pub open spec fn all_translated(gates: Seq<Gate>, wires: Seq<u64>, r: Seq<Gate>) -> bool
    decreases gates,
{
    &&& r.len() == gates.len()
    &&& forall|i: int| 0 <= i < gates.len() ==> translated(#[trigger] gates[i], wires, r[i])
}

/// The wire at a place.
fn wire_at(wires: &Vec<WireId>, place: WireId) -> (r: WireId)
    requires
        placed(place, wires@),
    ensures
        r == wires@[place as int],
{
    let count: usize = wires.len();
    assert(place < count);
    wires[place as usize]
}

fn copy_values(values: &Vec<Value>) -> (r: Vec<Value>)
    ensures
        bytes_of(r@) == bytes_of(values@),
{
    let mut r: Vec<Value> = Vec::new();
    let mut k: usize = 0;
    while k < values.len()
        invariant
            k <= values@.len(),
            r@.len() == k,
            forall|i: int| 0 <= i < k ==> (#[trigger] r@[i])@ == values@[i]@,
        decreases values@.len() - k,
    {
        r.push(to_value(values[k].as_slice()));
        k = k + 1;
    }
    assert(bytes_of(r@) =~= bytes_of(values@));
    r
}

/// Gives gates the wires of a call: each wire of theirs is the number of a place
/// among these.
pub fn translate_gates(subcircuit: &Vec<Gate>, output_input_wires: &Vec<WireId>) -> (r: Vec<Gate>)
    requires
        all_translatable(subcircuit@, output_input_wires@),
    ensures
        all_translated(subcircuit@, output_input_wires@, r@),
    decreases subcircuit@, 0int,
{
    let mut r: Vec<Gate> = Vec::new();
    let mut k: usize = 0;
    while k < subcircuit.len()
        invariant
            k <= subcircuit@.len(),
            r@.len() == k,
            forall|i: int|
                0 <= i < subcircuit@.len() ==> translatable(
                    #[trigger] subcircuit@[i],
                    output_input_wires@,
                ),
            forall|i: int|
                0 <= i < k ==> translated(
                    #[trigger] subcircuit@[i],
                    output_input_wires@,
                    r@[i],
                ),
        decreases subcircuit@.len() - k,
    {
        r.push(translate_gate(&subcircuit[k], output_input_wires));
        k = k + 1;
    }
    r
}

/// Gives a gate the wires of a call.
pub fn translate_gate(gate: &Gate, output_input_wires: &Vec<WireId>) -> (r: Gate)
    requires
        translatable(*gate, output_input_wires@),
    ensures
        translated(*gate, output_input_wires@, r),
    decreases gate, 0int,
{
    let wires = output_input_wires;
    match gate {
        Gate::Constant(out, val) => Gate::Constant(
            wire_at(wires, *out),
            to_value(val.as_slice()),
        ),
        Gate::AssertZero(out) => Gate::AssertZero(wire_at(wires, *out)),
        Gate::Copy(out, inp) => Gate::Copy(wire_at(wires, *out), wire_at(wires, *inp)),
        Gate::Add(out, a, b) => Gate::Add(
            wire_at(wires, *out),
            wire_at(wires, *a),
            wire_at(wires, *b),
        ),
        Gate::Mul(out, a, b) => Gate::Mul(
            wire_at(wires, *out),
            wire_at(wires, *a),
            wire_at(wires, *b),
        ),
        Gate::AddConstant(out, a, val) => Gate::AddConstant(
            wire_at(wires, *out),
            wire_at(wires, *a),
            to_value(val.as_slice()),
        ),
        Gate::MulConstant(out, a, val) => Gate::MulConstant(
            wire_at(wires, *out),
            wire_at(wires, *a),
            to_value(val.as_slice()),
        ),
        Gate::And(out, a, b) => Gate::And(
            wire_at(wires, *out),
            wire_at(wires, *a),
            wire_at(wires, *b),
        ),
        Gate::Xor(out, a, b) => Gate::Xor(
            wire_at(wires, *out),
            wire_at(wires, *a),
            wire_at(wires, *b),
        ),
        Gate::Not(out, a) => Gate::Not(wire_at(wires, *out), wire_at(wires, *a)),
        Gate::Instance(out) => Gate::Instance(wire_at(wires, *out)),
        Gate::Witness(out) => Gate::Witness(wire_at(wires, *out)),
        Gate::Free(from, end) => Gate::Free(
            wire_at(wires, *from),
            match end {
                Some(id) => Some(wire_at(wires, *id)),
                None => None,
            },
        ),
        Gate::Call(name, outs, ins) => Gate::Call(
            name.clone(),
            translate_vector_wires(outs, wires),
            translate_vector_wires(ins, wires),
        ),
        Gate::Switch(
            condition,
            output_wires,
            input_wires,
            instance_count,
            witness_count,
            cases,
            branches,
        ) => {
            let mut new_branches: Vec<Block> = Vec::new();
            let mut k: usize = 0;
            while k < branches.len()
                invariant
                    k <= branches@.len(),
                    new_branches@.len() == k,
                    decreases_to!(gate => branches@),
                    forall|i: int|
                        0 <= i < branches@.len() ==> all_translatable(
                            (#[trigger] branches@[i]).0@,
                            wires@,
                        ),
                    forall|i: int|
                        0 <= i < k ==> all_translated(
                            (#[trigger] branches@[i]).0@,
                            wires@,
                            new_branches@[i].0@,
                        ),
                decreases branches@.len() - k,
            {
                new_branches.push(translate_block(&branches[k], wires));
                k = k + 1;
            }
            Gate::Switch(
                wire_at(wires, *condition),
                translate_vector_wires(output_wires, wires),
                translate_vector_wires(input_wires, wires),
                *instance_count,
                *witness_count,
                copy_values(cases),
                new_branches,
            )
        },
        // Functions are not defined within bodies.
        Gate::Function(..) => vstd::pervasive::unreached(),
    }
}

/// The wires at several places.
pub fn translate_vector_wires(wires: &Vec<WireId>, output_input_wires: &Vec<WireId>) -> (r: Vec<
    WireId,
>)
    requires
        all_placed(wires@, output_input_wires@),
    ensures
        r@ == wires_at(wires@, output_input_wires@),
{
    let mut r: Vec<WireId> = Vec::new();
    let mut k: usize = 0;
    while k < wires.len()
        invariant
            k <= wires@.len(),
            all_placed(wires@, output_input_wires@),
            r@.len() == k,
            forall|i: int|
                0 <= i < k ==> #[trigger] r@[i] == output_input_wires@[wires@[i] as int],
        decreases wires@.len() - k,
    {
        assert(placed(wires@[k as int], output_input_wires@));
        r.push(wire_at(output_input_wires, wires[k]));
        k = k + 1;
    }
    assert(r@ =~= wires_at(wires@, output_input_wires@));
    r
}

/// Gives the gates of a block the wires of a call.
pub fn translate_block(block: &Block, output_input_wires: &Vec<WireId>) -> (r: Block)
    requires
        all_translatable(block.0@, output_input_wires@),
    ensures
        all_translated(block.0@, output_input_wires@, r.0@),
    decreases block, 0int,
{
    Block(translate_gates(&block.0, output_input_wires))
}

/// Giving a gate wires, and the result wires again, is giving it the wires at the
/// places that the first ones are.
pub proof fn translation_composes(
    g: Gate,
    first: Seq<u64>,
    between: Gate,
    second: Seq<u64>,
    r: Gate,
)
    requires
        translatable(g, first),
        translated(g, first, between),
        translatable(between, second),
        translated(between, second, r),
    ensures
        translated(g, wires_at(first, second), r),
    decreases g, 0int,
{
    let both = wires_at(first, second);
    match (g, between, r) {
        (Gate::Call(_, o, i), Gate::Call(_, o2, i2), Gate::Call(_, o3, i3)) => {
            assert forall|k: int| 0 <= k < o@.len() implies o3@[k] == wires_at(o@, both)[k] by {
                assert(placed(o@[k], first));
            }
            assert forall|k: int| 0 <= k < i@.len() implies i3@[k] == wires_at(i@, both)[k] by {
                assert(placed(i@[k], first));
            }
            assert(o3@ =~= wires_at(o@, both));
            assert(i3@ =~= wires_at(i@, both));
        },
        (
            Gate::Switch(_, o, i, _, _, _, bs),
            Gate::Switch(_, o2, i2, _, _, _, bs2),
            Gate::Switch(_, o3, i3, _, _, _, bs3),
        ) => {
            assert forall|k: int| 0 <= k < o@.len() implies o3@[k] == wires_at(o@, both)[k] by {
                assert(placed(o@[k], first));
            }
            assert forall|k: int| 0 <= k < i@.len() implies i3@[k] == wires_at(i@, both)[k] by {
                assert(placed(i@[k], first));
            }
            assert(o3@ =~= wires_at(o@, both));
            assert(i3@ =~= wires_at(i@, both));
            assert forall|k: int| 0 <= k < bs@.len() implies all_translated(
                (#[trigger] bs@[k]).0@,
                both,
                bs3@[k].0@,
            ) by {
                assert(all_translatable(bs@[k].0@, first));
                assert(all_translated(bs@[k].0@, first, bs2@[k].0@));
                assert(all_translatable(bs2@[k].0@, second));
                assert(all_translated(bs2@[k].0@, second, bs3@[k].0@));
                lemma_all_compose(bs@[k].0@, first, bs2@[k].0@, second, bs3@[k].0@);
            }
        },
        _ => {},
    }
}

proof fn lemma_all_compose(
    gates: Seq<Gate>,
    first: Seq<u64>,
    between: Seq<Gate>,
    second: Seq<u64>,
    r: Seq<Gate>,
)
    requires
        all_translatable(gates, first),
        all_translated(gates, first, between),
        all_translatable(between, second),
        all_translated(between, second, r),
    ensures
        all_translated(gates, wires_at(first, second), r),
    decreases gates, 0int,
{
    assert forall|i: int| 0 <= i < gates.len() implies translated(
        #[trigger] gates[i],
        wires_at(first, second),
        r[i],
    ) by {
        assert(translatable(gates[i], first));
        assert(translated(gates[i], first, between[i]));
        assert(translatable(between[i], second));
        assert(translated(between[i], second, r[i]));
        translation_composes(gates[i], first, between[i], second, r[i]);
    }
}

} // verus!
