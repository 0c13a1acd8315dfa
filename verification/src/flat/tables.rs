//! Tables of FlatBuffers: their writing, and what reading one back gives.

use crate::flat::layout::{lemma_last_field, lemma_table_cost, no_slots, Layout};
use crate::flat::model::{
    field_at, field_stored, stored, table_of, union_of, Field, Node, MAX_FIELDS,
};
use crate::flat::reader::{byte_at, child_at, long_at, value_at};
use crate::flat::writer::{
    end_table, layout, objects, open_tables, push_byte, push_reference, start_table, used, MAX_USED,
};
use vstd::prelude::*;

verus! {

/// Whether a builder holds all that it held before, with no table left open.
pub open spec fn kept_objects(
    before: flatbuffers::FlatBufferBuilder<'static>,
    after: flatbuffers::FlatBufferBuilder<'static>,
) -> bool {
    &&& forall|o: u32|
        objects(before).contains_key(o) ==> #[trigger] objects(after).contains_key(o)
            && objects(after)[o] == objects(before)[o]
    &&& open_tables(after).len() == 0
}

/// Whether a builder holds an object at an offset, besides all that it held before.
pub open spec fn kept_and_wrote(
    before: flatbuffers::FlatBufferBuilder<'static>,
    after: flatbuffers::FlatBufferBuilder<'static>,
    offset: u32,
    node: Node,
) -> bool {
    &&& objects(after).contains_key(offset)
    &&& objects(after)[offset] == node
    &&& kept_objects(before, after)
}

/// Whether a builder also took up no more than so many bytes.
pub open spec fn wrote(
    before: flatbuffers::FlatBufferBuilder<'static>,
    after: flatbuffers::FlatBufferBuilder<'static>,
    offset: u32,
    node: Node,
    cost: nat,
) -> bool {
    &&& kept_and_wrote(before, after, offset, node)
    &&& used(after) <= used(before) + cost
}

/// How far a buffer has grown with a table that holds one of several kinds of tables.
#[verifier::opaque]
pub open spec fn union_layout(l: Layout) -> Layout {
    let child = l.with_item(4);
    let code = child.with_item(1);
    code.with_table(
        l.used,
        no_slots().update(1, Some(child.used)).update(0, Some(code.used)),
    )
}

/// How many bytes there are for a moment while such a table is written.
#[verifier::opaque]
pub open spec fn union_crest(l: Layout) -> nat {
    let child = l.with_item(4);
    let code = child.with_item(1);
    code.crest(no_slots().update(1, Some(child.used)).update(0, Some(code.used)))
}

/// How many bytes such a table takes up: for a moment, and at most.
pub proof fn lemma_union_cost(l: Layout)
    ensures
        l.used + 9 <= union_layout(l).used <= l.used + 40,
        union_layout(l).used <= union_crest(l) <= union_layout(l).used + 8,
        union_crest(l) <= l.used + 24,
{
    reveal(union_layout);
    reveal(union_crest);
    let child = l.with_item(4);
    let code = child.with_item(1);
    let slots = no_slots().update(1, Some(child.used)).update(0, Some(code.used));
    lemma_table_cost(code, l.used, slots);
    lemma_last_field(slots, 2);
}

/// Writes a table that holds one of several kinds of tables.
pub(crate) fn create_union(
    builder: &mut flatbuffers::FlatBufferBuilder<'static>,
    code: u8,
    inner: u32,
) -> (r: u32)
    requires
        open_tables(*old(builder)).len() == 0,
        code != 0,
        objects(*old(builder)).contains_key(inner),
        union_crest(layout(*old(builder))) < MAX_USED,
    ensures
        wrote(
            *old(builder),
            *final(builder),
            r,
            union_of(code, objects(*old(builder))[inner]),
            40,
        ),
        layout(*final(builder)) == union_layout(layout(*old(builder))),
{
    proof {
        reveal(union_layout);
        reveal(union_crest);
        lemma_union_cost(layout(*builder));
    }
    let start = start_table(builder);
    push_reference(builder, 1, inner);
    push_byte(builder, 0, code);
    let ghost fields = seq![Field::Byte(code), Field::Child(objects(*old(builder))[inner])];
    assert(Node::Table(open_tables(*builder)[0].1) == table_of(fields)) by {
        assert(open_tables(*builder)[0].1 =~= table_of(fields)->Table_0);
    }
    end_table(builder, start)
}

/// A field that a stored table has.
pub proof fn lemma_field(b: Seq<u8>, p: int, fields: Seq<Field>, i: int)
    requires
        stored(b, p, table_of(fields)),
        0 <= i < fields.len() <= MAX_FIELDS,
    ensures
        field_at(b, p, i) is Some,
        field_stored(b, field_at(b, p, i)->Some_0, fields[i]),
{
    assert((table_of(fields)->Table_0)[i] == Some(fields[i]));
}

/// A number of 8 bytes in a stored table.
pub proof fn lemma_long(b: Seq<u8>, p: int, fields: Seq<Field>, i: int)
    requires
        stored(b, p, table_of(fields)),
        0 <= i < fields.len() <= MAX_FIELDS,
        fields[i] is Long,
    ensures
        long_at(b, p, i) == Some(fields[i]->Long_0),
{
    lemma_field(b, p, fields, i);
}

/// A child of a stored table.
pub proof fn lemma_child(b: Seq<u8>, p: int, fields: Seq<Field>, i: int)
    requires
        stored(b, p, table_of(fields)),
        0 <= i < fields.len() <= MAX_FIELDS,
        fields[i] is Child,
    ensures
        child_at(b, p, i) is Some,
        stored(b, child_at(b, p, i)->Some_0, fields[i]->Child_0),
        fields[i]->Child_0 is Bytes ==> value_at(b, p, i) == Some(fields[i]->Child_0->Bytes_0),
{
    lemma_field(b, p, fields, i);
}

/// The code and the table of a stored union.
pub proof fn lemma_union(b: Seq<u8>, p: int, code: u8, inner: Node)
    requires
        stored(b, p, union_of(code, inner)),
    ensures
        byte_at(b, p, 0) == code,
        child_at(b, p, 1) is Some,
        stored(b, child_at(b, p, 1)->Some_0, inner),
{
    let fields = seq![Field::Byte(code), Field::Child(inner)];
    lemma_field(b, p, fields, 0);
    lemma_child(b, p, fields, 1);
}

} // verus!
