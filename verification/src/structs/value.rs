//! The binary form of values.

use crate::error::Error;
use crate::flat::layout::{
    larger_of, lemma_last_field, no_slots, rounded, vtable_of, Layout, Vtable,
};
use crate::flat::model::{stored, table_of, target_at, Field, Node};
use crate::flat::reader::{count_at, find_target, read_count, read_value, value_at};
use crate::flat::tables::{kept_and_wrote, lemma_child};
use crate::flat::writer::{
    create_bytes, create_references, end_table, layout, objects, objects_at, open_tables,
    push_reference, start_table, used, MAX_USED,
};
use crate::structs::wire::{bytes_of, Value};
use vstd::prelude::*;

verus! {

/// The binary form of a value: a table whose only field are its bytes.
pub open spec fn value_node(bytes: Seq<u8>) -> Node {
    table_of(seq![Field::Child(Node::Bytes(bytes))])
}

/// The binary form of several values.
pub open spec fn values_node(values: Seq<Seq<u8>>) -> Node {
    Node::Nodes(values.map_values(|v: Seq<u8>| value_node(v)))
}

/// How far a buffer has grown with a value of so many bytes.
pub open spec fn value_layout(l: Layout, len: nat) -> Layout {
    let bytes = l.with_vector(len);
    let field = bytes.with_item(4);
    field.with_table(bytes.used, no_slots().update(0, Some(field.used)))
}

/// What the table of a value says of its only field.
pub open spec fn value_vtable() -> Vtable {
    Vtable { size: 8, offsets: no_slots().update(0, Some(4nat)) }
}

/// How far a buffer has grown with several values, before the vector that refers to them.
pub open spec fn each_value_layout(l: Layout, values: Seq<Seq<u8>>) -> Layout
    decreases values.len(),
{
    if values.len() == 0 {
        l
    } else {
        value_layout(each_value_layout(l, values.drop_last()), values.last().len())
    }
}

/// How far a buffer has grown with several values.
pub open spec fn values_layout(l: Layout, values: Seq<Seq<u8>>) -> Layout {
    each_value_layout(l, values).with_vector(4 * values.len())
}

/// A value takes up its bytes, aligned to 4, and 12 more; and 6 more for what its table
/// says of its field, unless a table has said the same.
pub proof fn lemma_value_layout(l: Layout, len: nat)
    ensures
        value_layout(l, len) == (Layout {
            used: rounded(l.used + len, 4) + 12 + (if l.vtables.contains(value_vtable()) {
                0nat
            } else {
                6nat
            }),
            alignment: larger_of(l.alignment, 4),
            vtables: l.vtables.insert(value_vtable()),
        }),
        ({
            let bytes = l.with_vector(len);
            let field = bytes.with_item(4);
            let slots = no_slots().update(0, Some(field.used));
            &&& field.used == rounded(l.used + len, 4) + 8
            &&& field.crest(slots) == rounded(l.used + len, 4) + 18
        }),
{
    let bytes = l.with_vector(len);
    let field = bytes.with_item(4);
    let slots = no_slots().update(0, Some(field.used));
    let body = field.with_item(4);
    lemma_last_field(slots, 1);
    assert(vtable_of(bytes.used, slots, body.used) =~= value_vtable());
}

/// Values before others take up no more than all of them.
pub proof fn lemma_each_grows(l: Layout, values: Seq<Seq<u8>>, k: int)
    requires
        0 <= k <= values.len(),
    ensures
        each_value_layout(l, values.take(k)).used + 12 * (values.len() - k) <= each_value_layout(
            l,
            values,
        ).used,
    decreases values.len() - k,
{
    if k == values.len() {
        assert(values.take(k) =~= values);
    } else {
        lemma_each_grows(l, values, k + 1);
        assert(values.take(k + 1).drop_last() =~= values.take(k));
        lemma_value_layout(each_value_layout(l, values.take(k)), values[k].len());
    }
}

pub open spec fn missing_value_text() -> Seq<char> {
    "Missing value"@
}

/// Values that were read, from the `k`-th reference of a vector on.
pub open spec fn values_from(b: Seq<u8>, p: int, count: nat, k: nat, read: Seq<Seq<u8>>) -> Result<
    Seq<Seq<u8>>,
    Seq<char>,
>
    decreases count - k,
{
    if k >= count {
        Ok(read)
    } else {
        match target_at(b, p + 4 + 4 * k) {
            None => Err(missing_value_text()),
            Some(t) => match value_at(b, t, 0) {
                None => Err(missing_value_text()),
                Some(v) => values_from(b, p, count, k + 1, read.push(v)),
            },
        }
    }
}

/// The values of a vector at a position.
pub open spec fn values_at(b: Seq<u8>, p: int) -> Result<Seq<Seq<u8>>, Seq<char>> {
    match count_at(b, p) {
        None => Err(missing_value_text()),
        Some(count) => values_from(b, p, count, 0, Seq::empty()),
    }
}

/// Writes a value.
pub(crate) fn build_value(builder: &mut flatbuffers::FlatBufferBuilder<'static>, value: &Value) -> (r:
    u32)
    requires
        open_tables(*old(builder)).len() == 0,
        rounded(used(*old(builder)) + value@.len(), 4) + 18 < MAX_USED,
    ensures
        kept_and_wrote(*old(builder), *final(builder), r, value_node(value@)),
        layout(*final(builder)) == value_layout(layout(*old(builder)), value@.len()),
{
    proof {
        lemma_value_layout(layout(*builder), value@.len());
    }
    let bytes = create_bytes(builder, value.as_slice());
    let start = start_table(builder);
    push_reference(builder, 0, bytes);
    let ghost fields = seq![Field::Child(Node::Bytes(value@))];
    assert(Node::Table(open_tables(*builder)[0].1) == table_of(fields)) by {
        assert(open_tables(*builder)[0].1 =~= table_of(fields)->Table_0);
    }
    end_table(builder, start)
}

/// Writes several values.
pub(crate) fn build_values_vector(
    builder: &mut flatbuffers::FlatBufferBuilder<'static>,
    values: &Vec<Value>,
) -> (r: u32)
    requires
        open_tables(*old(builder)).len() == 0,
        values_layout(layout(*old(builder)), bytes_of(values@)).used + 6 < MAX_USED,
    ensures
        kept_and_wrote(*old(builder), *final(builder), r, values_node(bytes_of(values@))),
        layout(*final(builder)) == values_layout(layout(*old(builder)), bytes_of(values@)),
{
    let mut offsets: Vec<u32> = Vec::new();
    let ghost all = bytes_of(values@);
    let ghost l = layout(*builder);
    let mut k: usize = 0;
    assert(all.take(0) =~= Seq::empty());
    while k < values.len()
        invariant
            k <= values@.len(),
            all == bytes_of(values@),
            l == layout(*old(builder)),
            offsets@.len() == k,
            open_tables(*builder).len() == 0,
            each_value_layout(l, all).used + 6 < MAX_USED,
            layout(*builder) == each_value_layout(l, all.take(k as int)),
            forall|i: int|
                0 <= i < k ==> objects(*builder).contains_key(#[trigger] offsets@[i])
                    && objects(*builder)[offsets@[i]] == value_node(all[i]),
            forall|o: u32|
                objects(*old(builder)).contains_key(o)
                    ==> #[trigger] objects(*builder).contains_key(o) && objects(*builder)[o]
                    == objects(*old(builder))[o],
        decreases values@.len() - k,
    {
        proof {
            lemma_each_grows(l, all, k + 1);
            assert(all.take(k + 1).drop_last() =~= all.take(k as int));
            lemma_value_layout(layout(*builder), all[k as int].len());
        }
        offsets.push(build_value(builder, &values[k]));
        k = k + 1;
    }
    assert(all.take(k as int) =~= all);
    assert(objects_at(objects(*builder), offsets@) =~= all.map_values(
        |v: Seq<u8>| value_node(v),
    ));
    create_references(builder, &offsets)
}

/// Reads the values of a vector at a position.
pub fn try_from_values_vector(b: &[u8], p: usize) -> (r: Result<Vec<Value>, Error>)
    ensures
        values_at(b@, p as int) == (match r {
            Ok(values) => Ok::<Seq<Seq<u8>>, Seq<char>>(bytes_of(values@)),
            Err(e) => Err::<Seq<Seq<u8>>, Seq<char>>(e@),
        }),
{
    let count = match read_count(b, p) {
        None => {
            return Err(Error::new("Missing value"));
        },
        Some(n) => n,
    };
    let mut values: Vec<Value> = Vec::new();
    assert(bytes_of(values@) =~= Seq::empty());
    let mut k: usize = 0;
    while k < count
        invariant
            k <= count,
            p + 4 + 4 * count <= b.len(),
            count_at(b@, p as int) == Some(count as nat),
            values_at(b@, p as int) == values_from(
                b@,
                p as int,
                count as nat,
                k as nat,
                bytes_of(values@),
            ),
        decreases count - k,
    {
        let table = match find_target(b, p + 4 + 4 * k) {
            None => {
                return Err(Error::new("Missing value"));
            },
            Some(t) => t,
        };
        let value = match read_value(b, table, 0) {
            None => {
                return Err(Error::new("Missing value"));
            },
            Some(v) => v,
        };
        assert(bytes_of(values@.push(value)) =~= bytes_of(values@).push(value@));
        values.push(value);
        k = k + 1;
    }
    Ok(values)
}

proof fn lemma_values_from(b: Seq<u8>, p: int, values: Seq<Seq<u8>>, k: nat)
    requires
        stored(b, p, values_node(values)),
        k <= values.len(),
    ensures
        values_from(b, p, values.len(), k, values.take(k as int)) == Ok::<
            Seq<Seq<u8>>,
            Seq<char>,
        >(values),
    decreases values.len() - k,
{
    if k < values.len() {
        let list = values_node(values)->Nodes_0;
        assert(list[k as int] == value_node(values[k as int]));
        let t = target_at(b, p + 4 + 4 * k)->Some_0;
        lemma_child(b, t, seq![Field::Child(Node::Bytes(values[k as int]))], 0);
        assert(values.take(k as int).push(values[k as int]) =~= values.take(k as int + 1));
        lemma_values_from(b, p, values, k + 1);
    } else {
        assert(values.take(k as int) =~= values);
    }
}

/// Reading values back gives what was written.
pub proof fn values_round_trip(b: Seq<u8>, p: int, values: Seq<Seq<u8>>)
    requires
        stored(b, p, values_node(values)),
    ensures
        values_at(b, p) == Ok::<Seq<Seq<u8>>, Seq<char>>(values),
{
    assert(values.take(0) =~= Seq::empty());
    lemma_values_from(b, p, values, 0);
}

} // verus!
