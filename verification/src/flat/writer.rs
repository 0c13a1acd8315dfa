//! The writing of FlatBuffers, which the `flatbuffers` crate does.
//!
//! A `flatbuffers::FlatBufferBuilder` gathers objects. Each is known by its offset,
//! a number that the builder gives out. A table is written between `start_table` and
//! `end_table`, field by field.

use crate::flat::layout::{no_slots, no_vtables, Layout, Vtable};
use crate::flat::model::{is_message, no_fields, Field, Node, MAX_FIELDS};
use vstd::prelude::*;
use vstd::utf8::encode_utf8;

verus! {

/// A builder of the `flatbuffers` crate.
#[verifier::external_type_specification]
#[verifier::external_body]
pub struct ExFlatBufferBuilder<'fbb>(flatbuffers::FlatBufferBuilder<'fbb>);

/// The objects that a builder has gathered, by their offsets.
pub uninterp spec fn objects(b: flatbuffers::FlatBufferBuilder<'static>) -> Map<u32, Node>;

/// The table that is being written, if there is one: where it started, its fields so
/// far, and where these lie, each as a distance from the end of the buffer.
pub uninterp spec fn open_tables(b: flatbuffers::FlatBufferBuilder<'static>) -> Seq<
    (u32, Seq<Option<Field>>, Seq<Option<nat>>),
>;

/// How many bytes a builder has gathered.
pub uninterp spec fn used(b: flatbuffers::FlatBufferBuilder<'static>) -> nat;

/// The largest alignment that anything in a builder has, zero if there is nothing.
pub uninterp spec fn alignment(b: flatbuffers::FlatBufferBuilder<'static>) -> nat;

/// What the tables of a builder say of their fields.
pub uninterp spec fn vtables(b: flatbuffers::FlatBufferBuilder<'static>) -> Set<Vtable>;

/// How far a builder has grown.
pub open spec fn layout(b: flatbuffers::FlatBufferBuilder<'static>) -> Layout {
    Layout { used: used(b), alignment: alignment(b), vtables: vtables(b) }
}

/// No objects.
pub open spec fn nothing() -> Map<u32, Node> {
    Map::empty()
}

/// The most bytes that a buffer can hold.
pub const MAX_USED: usize = 0x8000_0000;

/// `flatbuffers::FlatBufferBuilder::new`: a builder without objects.
#[verifier::external_body]
pub(crate) fn new_builder() -> (b: flatbuffers::FlatBufferBuilder<'static>)
    ensures
        objects(b) == nothing(),
        open_tables(b).len() == 0,
        used(b) == 0,
        alignment(b) == 0,
        vtables(b) == no_vtables(),
{
    flatbuffers::FlatBufferBuilder::new()
}

/// `flatbuffers::FlatBufferBuilder::create_vector` on bytes: one more object, at an
/// offset of its own, that holds the bytes. It takes up the bytes, a length of 4
/// bytes, and as many bytes as it takes for the length to be aligned to 4.
#[verifier::external_body]
pub(crate) fn create_bytes(b: &mut flatbuffers::FlatBufferBuilder<'static>, bytes: &[u8]) -> (r: u32)
    requires
        open_tables(*old(b)).len() == 0,
        layout(*old(b)).with_vector(bytes@.len()).used <= MAX_USED,
    ensures
        !objects(*old(b)).contains_key(r),
        objects(*final(b)) == objects(*old(b)).insert(r, Node::Bytes(bytes@)),
        open_tables(*final(b)) == open_tables(*old(b)),
        layout(*final(b)) == layout(*old(b)).with_vector(bytes@.len()),
{
    b.create_vector(bytes).value()
}

/// `flatbuffers::FlatBufferBuilder::create_string`: one more object that holds the
/// UTF-8 bytes of a text, as `create_vector` would, followed by a zero byte.
#[verifier::external_body]
pub(crate) fn create_text(b: &mut flatbuffers::FlatBufferBuilder<'static>, text: &str) -> (r: u32)
    requires
        open_tables(*old(b)).len() == 0,
        layout(*old(b)).with_vector(encode_utf8(text@).len() + 1).used <= MAX_USED,
    ensures
        !objects(*old(b)).contains_key(r),
        objects(*final(b)) == objects(*old(b)).insert(r, Node::Bytes(encode_utf8(text@))),
        open_tables(*final(b)) == open_tables(*old(b)),
        layout(*final(b)) == layout(*old(b)).with_vector(encode_utf8(text@).len() + 1),
{
    b.create_string(text).value()
}

/// The objects at several offsets.
pub open spec fn objects_at(objects: Map<u32, Node>, offsets: Seq<u32>) -> Seq<Node> {
    offsets.map_values(|o: u32| objects[o])
}

/// `flatbuffers::FlatBufferBuilder::create_vector` on offsets: one more object that
/// holds references to the objects at these offsets. It takes up 4 bytes for each, a
/// length of 4 bytes, and as many bytes as it takes for these to be aligned to 4.
#[verifier::external_body]
pub(crate) fn create_references(
    b: &mut flatbuffers::FlatBufferBuilder<'static>,
    offsets: &Vec<u32>,
) -> (r: u32)
    requires
        open_tables(*old(b)).len() == 0,
        forall|i: int|
            0 <= i < offsets@.len() ==> objects(*old(b)).contains_key(#[trigger] offsets@[i]),
        layout(*old(b)).with_vector(4 * offsets@.len()).used <= MAX_USED,
    ensures
        !objects(*old(b)).contains_key(r),
        objects(*final(b)) == objects(*old(b)).insert(
            r,
            Node::Nodes(objects_at(objects(*old(b)), offsets@)),
        ),
        open_tables(*final(b)) == open_tables(*old(b)),
        layout(*final(b)) == layout(*old(b)).with_vector(4 * offsets@.len()),
{
    let items: Vec<flatbuffers::WIPOffset<flatbuffers::Table<'static>>> = offsets
        .iter()
        .map(|o| flatbuffers::WIPOffset::new(*o))
        .collect();
    b.create_vector(&items).value()
}

/// `flatbuffers::FlatBufferBuilder::start_table`: a table without fields is being
/// written from here on. Nothing is taken up yet. The offset is how many bytes there are.
#[verifier::external_body]
pub(crate) fn start_table(b: &mut flatbuffers::FlatBufferBuilder<'static>) -> (r: u32)
    requires
        open_tables(*old(b)).len() == 0,
        used(*old(b)) <= MAX_USED,
    ensures
        r == used(*old(b)),
        objects(*final(b)) == objects(*old(b)),
        open_tables(*final(b)) == seq![(r, no_fields(), no_slots())],
        layout(*final(b)) == layout(*old(b)),
{
    b.start_table().value()
}

/// Whether the field with an index may be written next.
pub open spec fn awaits(b: flatbuffers::FlatBufferBuilder<'static>, field: i16) -> bool {
    &&& open_tables(b).len() == 1
    &&& 0 <= field < MAX_FIELDS
    &&& open_tables(b)[0].1.len() == MAX_FIELDS
    &&& open_tables(b)[0].1[field as int] is None
}

/// What a table being written is with one more field, which lies at a place.
pub open spec fn with_field(
    tables: Seq<(u32, Seq<Option<Field>>, Seq<Option<nat>>)>,
    field: i16,
    value: Field,
    slot: nat,
) -> Seq<(u32, Seq<Option<Field>>, Seq<Option<nat>>)> {
    seq![
        (
            tables[0].0,
            tables[0].1.update(field as int, Some(value)),
            tables[0].2.update(field as int, Some(slot)),
        ),
    ]
}

/// `flatbuffers::FlatBufferBuilder::push_slot` on a byte whose default is zero: the
/// field holds the byte, or is left out if that is zero.
#[verifier::external_body]
pub(crate) fn push_byte(b: &mut flatbuffers::FlatBufferBuilder<'static>, field: i16, value: u8)
    requires
        awaits(*old(b), field),
        layout(*old(b)).with_item(1).used <= MAX_USED,
    ensures
        objects(*final(b)) == objects(*old(b)),
        open_tables(*final(b)) == (if value == 0 {
            open_tables(*old(b))
        } else {
            with_field(open_tables(*old(b)), field, Field::Byte(value), used(*final(b)))
        }),
        layout(*final(b)) == (if value == 0 {
            layout(*old(b))
        } else {
            layout(*old(b)).with_item(1)
        }),
{
    b.push_slot::<u8>(flatbuffers::field_index_to_field_offset(field), value, 0)
}

/// `flatbuffers::FlatBufferBuilder::push_slot` on a number of 4 bytes whose default is
/// zero: the field holds the number, or is left out if that is zero. It takes up 4
/// bytes, aligned to 4.
#[verifier::external_body]
pub(crate) fn push_word(b: &mut flatbuffers::FlatBufferBuilder<'static>, field: i16, value: u32)
    requires
        awaits(*old(b), field),
        layout(*old(b)).with_item(4).used <= MAX_USED,
    ensures
        objects(*final(b)) == objects(*old(b)),
        open_tables(*final(b)) == (if value == 0 {
            open_tables(*old(b))
        } else {
            with_field(open_tables(*old(b)), field, Field::Word(value), used(*final(b)))
        }),
        layout(*final(b)) == (if value == 0 {
            layout(*old(b))
        } else {
            layout(*old(b)).with_item(4)
        }),
{
    b.push_slot::<u32>(flatbuffers::field_index_to_field_offset(field), value, 0)
}

/// `flatbuffers::FlatBufferBuilder::push_slot_always` on a number of 8 bytes, which is
/// also what a structure with one such number is: the field holds the number. It
/// takes up 8 bytes, and up to 7 so that it is aligned as the machine aligns such numbers.
/// How many these are, and the alignment of the buffer, is left unsaid.
#[verifier::external_body]
pub(crate) fn push_long(b: &mut flatbuffers::FlatBufferBuilder<'static>, field: i16, value: u64)
    requires
        awaits(*old(b), field),
        used(*old(b)) + 16 <= MAX_USED,
    ensures
        objects(*final(b)) == objects(*old(b)),
        open_tables(*final(b)) == with_field(
            open_tables(*old(b)),
            field,
            Field::Long(value),
            used(*final(b)),
        ),
        used(*old(b)) + 8 <= used(*final(b)) <= used(*old(b)) + 16,
        vtables(*final(b)) == vtables(*old(b)),
{
    b.push_slot_always::<u64>(flatbuffers::field_index_to_field_offset(field), value)
}

/// `flatbuffers::FlatBufferBuilder::push_slot_always` on an offset: the field refers
/// to the object at that offset. It takes up 4 bytes, aligned to 4.
#[verifier::external_body]
pub(crate) fn push_reference(
    b: &mut flatbuffers::FlatBufferBuilder<'static>,
    field: i16,
    offset: u32,
)
    requires
        awaits(*old(b), field),
        objects(*old(b)).contains_key(offset),
        layout(*old(b)).with_item(4).used <= MAX_USED,
    ensures
        objects(*final(b)) == objects(*old(b)),
        open_tables(*final(b)) == with_field(
            open_tables(*old(b)),
            field,
            Field::Child(objects(*old(b))[offset]),
            used(*final(b)),
        ),
        layout(*final(b)) == layout(*old(b)).with_item(4),
{
    b.push_slot_always(
        flatbuffers::field_index_to_field_offset(field),
        flatbuffers::WIPOffset::<flatbuffers::Table<'static>>::new(offset),
    )
}

/// `flatbuffers::FlatBufferBuilder::end_table`: one more object, the table with the
/// fields that were written. It takes up 4 bytes, aligned to 4, for the distance to the
/// vtable, which holds two lengths and one distance for each field up to the last one, of
/// 2 bytes each. A vtable that is equal to an earlier one takes up nothing once the table
/// is written.
#[verifier::external_body]
pub(crate) fn end_table(b: &mut flatbuffers::FlatBufferBuilder<'static>, start: u32) -> (r: u32)
    requires
        open_tables(*old(b)).len() == 1,
        open_tables(*old(b))[0].0 == start,
        layout(*old(b)).crest(open_tables(*old(b))[0].2) < MAX_USED,
    ensures
        !objects(*old(b)).contains_key(r),
        objects(*final(b)) == objects(*old(b)).insert(r, Node::Table(open_tables(*old(b))[0].1)),
        open_tables(*final(b)).len() == 0,
        layout(*final(b)) == layout(*old(b)).with_table(start as nat, open_tables(*old(b))[0].2),
{
    b.end_table(flatbuffers::WIPOffset::new(start)).value()
}

/// `flatbuffers::FlatBufferBuilder::finish_size_prefixed`, then `finished_data`: the
/// bytes of a message with the object at an offset as its root. They are those that were
/// gathered, a length and a reference of 4 bytes each, 4 bytes of the identifier if there
/// is one, and as many as it takes for all of them to be aligned.
#[verifier::external_body]
pub(crate) fn finish_message(
    b: flatbuffers::FlatBufferBuilder<'static>,
    root: u32,
    identifier: Option<&str>,
) -> (r: Vec<u8>)
    requires
        open_tables(b).len() == 0,
        objects(b).contains_key(root),
        identifier matches Some(id) ==> encode_utf8(id@).len() == 4,
        layout(b).finished(identifier is Some) <= MAX_USED,
    ensures
        r@.len() == layout(b).finished(identifier is Some),
        is_message(
            r@,
            (match identifier {
                Some(id) => Some(encode_utf8(id@)),
                None => None,
            }),
            objects(b)[root],
        ),
{
    let mut b = b;
    b.finish_size_prefixed(
        flatbuffers::WIPOffset::<flatbuffers::Table<'static>>::new(root),
        identifier,
    );
    b.finished_data().to_vec()
}

} // verus!
