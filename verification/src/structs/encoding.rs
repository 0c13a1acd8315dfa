//! The binary form of messages that hold values.

use crate::error::Error;
use crate::flat::layout::{
    blank, lemma_last_field, lemma_table_cost, no_slots, rounded, vtable_of, Layout, Vtable,
};
use crate::flat::model::{is_message, table_of, target_at, union_of, Field, Node};
use crate::flat::reader::{byte_at, child_at, find_child, find_target, read_byte};
use crate::flat::tables::{
    create_union, kept_and_wrote, lemma_child, lemma_union, lemma_union_cost, union_crest,
    union_layout,
};
use crate::flat::writer::{
    end_table, finish_message, layout, new_builder, objects, open_tables, push_reference,
    start_table, MAX_USED,
};
use crate::structs::header::{
    header_at, header_fields, header_layout, header_node, header_parts, header_round_trip, Header,
    HeaderV,
};
use crate::structs::value::{
    build_values_vector, each_value_layout, lemma_each_grows, lemma_value_layout,
    try_from_values_vector, value_vtable, values_at, values_layout, values_node, values_round_trip,
};
use crate::structs::wire::{bytes_of, Value};
use vstd::prelude::*;
use vstd::utf8::encode_utf8;

verus! {

/// The code of instances among the messages.
pub const INSTANCE_CODE: u8 = 2;

/// The code of witnesses among the messages.
pub const WITNESS_CODE: u8 = 3;

/// The binary form of a message that holds values: its code, and a table of its
/// header and its values.
pub open spec fn message_node(code: u8, header: HeaderV, values: Seq<Seq<u8>>) -> Node {
    union_of(
        code,
        table_of(seq![Field::Child(header_node(header)), Field::Child(values_node(values))]),
    )
}

/// How far a buffer has grown with two references, and where these lie.
pub open spec fn pair_fields(l: Layout) -> (Layout, Seq<Option<nat>>) {
    let second = l.with_item(4);
    let first = second.with_item(4);
    (first, no_slots().update(1, Some(second.used)).update(0, Some(first.used)))
}

/// How far a buffer has grown with a table of two references.
#[verifier::opaque]
pub open spec fn pair_layout(l: Layout) -> Layout {
    let (fields, slots) = pair_fields(l);
    fields.with_table(l.used, slots)
}

/// How far a buffer has grown with the table of a message, before its code.
pub open spec fn content_layout(l: Layout, header: HeaderV, values: Seq<Seq<u8>>) -> Layout {
    pair_layout(values_layout(header_layout(l, header), values))
}

/// How far a buffer has grown with a message.
pub open spec fn message_layout(l: Layout, header: HeaderV, values: Seq<Seq<u8>>) -> Layout {
    union_layout(content_layout(l, header, values))
}

/// How many bytes there are for a moment while a message is written.
pub open spec fn message_crest(l: Layout, header: HeaderV, values: Seq<Seq<u8>>) -> nat {
    union_crest(content_layout(l, header, values))
}

/// How many bytes a message has.
pub open spec fn message_size(header: HeaderV, values: Seq<Seq<u8>>, identified: bool) -> nat {
    message_layout(blank(), header, values).finished(identified)
}

pub open spec fn too_large_text() -> Seq<char> {
    "cannot grow buffer beyond 2 gigabytes"@
}

/// The header and the values of a message with a code.
pub open spec fn message_at(b: Seq<u8>, code: u8, not_text: Seq<char>, missing: Seq<char>) -> Result<
    (HeaderV, Seq<Seq<u8>>),
    Seq<char>,
> {
    match target_at(b, 4) {
        None => Err(not_text),
        Some(root) => if byte_at(b, root, 0) != code {
            Err(not_text)
        } else {
            match child_at(b, root, 1) {
                None => Err(not_text),
                Some(t) => match child_at(b, t, 0) {
                    None => Err("Missing header"@),
                    Some(h) => match header_at(b, h) {
                        Err(e) => Err(e),
                        Ok(header) => match child_at(b, t, 1) {
                            None => Err(missing),
                            Some(p) => match values_at(b, p) {
                                Err(e) => Err(e),
                                Ok(values) => Ok((header, values)),
                            },
                        },
                    },
                },
            }
        },
    }
}

/// Reads the header and the values of a message with a code.
pub(crate) fn read_message(b: &[u8], code: u8, not_text: &str, missing: &str) -> (r: Result<
    (Header, Vec<Value>),
    Error,
>)
    ensures
        message_at(b@, code, not_text@, missing@) == (match r {
            Ok((header, values)) => Ok::<(HeaderV, Seq<Seq<u8>>), Seq<char>>(
                (header@, bytes_of(values@)),
            ),
            Err(e) => Err::<(HeaderV, Seq<Seq<u8>>), Seq<char>>(e@),
        }),
{
    let root = match find_target(b, 4) {
        None => {
            return Err(Error::new(not_text));
        },
        Some(p) => p,
    };
    if read_byte(b, root, 0) != code {
        return Err(Error::new(not_text));
    }
    let table = match find_child(b, root, 1) {
        None => {
            return Err(Error::new(not_text));
        },
        Some(p) => p,
    };
    let header = match find_child(b, table, 0) {
        None => {
            return Err(Error::new("Missing header"));
        },
        Some(p) => match Header::try_from_table(b, p) {
            Err(e) => {
                return Err(e);
            },
            Ok(header) => header,
        },
    };
    match find_child(b, table, 1) {
        None => Err(Error::new(missing)),
        Some(p) => match try_from_values_vector(b, p) {
            Err(e) => Err(e),
            Ok(values) => Ok((header, values)),
        },
    }
}

/// How many bytes a table of two references takes up.
proof fn lemma_pair_cost(l: Layout)
    ensures
        l.used + 12 <= pair_layout(l).used,
        pair_fields(l).0.used <= pair_layout(l).used,
        pair_fields(l).0.crest(pair_fields(l).1) <= pair_layout(l).used + 8,
{
    reveal(pair_layout);
    let (fields, slots) = pair_fields(l);
    lemma_table_cost(fields, l.used, slots);
    lemma_last_field(slots, 2);
}

/// Writes a table of two references.
fn create_pair(
    builder: &mut flatbuffers::FlatBufferBuilder<'static>,
    first: u32,
    second: u32,
) -> (r: u32)
    requires
        open_tables(*old(builder)).len() == 0,
        objects(*old(builder)).contains_key(first),
        objects(*old(builder)).contains_key(second),
        pair_layout(layout(*old(builder))).used + 8 < MAX_USED,
    ensures
        kept_and_wrote(
            *old(builder),
            *final(builder),
            r,
            table_of(
                seq![
                    Field::Child(objects(*old(builder))[first]),
                    Field::Child(objects(*old(builder))[second]),
                ],
            ),
        ),
        layout(*final(builder)) == pair_layout(layout(*old(builder))),
{
    proof {
        reveal(pair_layout);
        lemma_pair_cost(layout(*builder));
    }
    let start = start_table(builder);
    push_reference(builder, 1, second);
    push_reference(builder, 0, first);
    let ghost fields = seq![
        Field::Child(objects(*old(builder))[first]),
        Field::Child(objects(*old(builder))[second]),
    ];
    assert(Node::Table(open_tables(*builder)[0].1) == table_of(fields)) by {
        assert(open_tables(*builder)[0].1 =~= table_of(fields)->Table_0);
    }
    end_table(builder, start)
}

/// What comes before the end of a message fits where the end does.
proof fn lemma_message_crest(l: Layout, header: HeaderV, values: Seq<Seq<u8>>)
    ensures
        ({
            let h = header_layout(l, header);
            let v = values_layout(h, values);
            let crest = message_crest(l, header, values);
            &&& h.used + 10 < crest
            &&& v.used + 6 < crest
            &&& pair_layout(v).used + 8 < crest
            &&& message_layout(l, header, values).used <= crest
        }),
{
    let h = header_layout(l, header);
    let v = values_layout(h, values);
    lemma_each_grows(h, values, 0);
    assert(values.take(0) =~= Seq::empty());
    lemma_pair_cost(v);
    lemma_union_cost(pair_layout(v));
}

/// Writes a message that holds values.
pub(crate) fn build_message(
    builder: &mut flatbuffers::FlatBufferBuilder<'static>,
    code: u8,
    header: &Header,
    values: &Vec<Value>,
) -> (r: u32)
    requires
        open_tables(*old(builder)).len() == 0,
        code != 0,
        message_crest(layout(*old(builder)), header@, bytes_of(values@)) < MAX_USED,
    ensures
        kept_and_wrote(
            *old(builder),
            *final(builder),
            r,
            message_node(code, header@, bytes_of(values@)),
        ),
        layout(*final(builder)) == message_layout(
            layout(*old(builder)),
            header@,
            bytes_of(values@),
        ),
{
    proof {
        lemma_message_crest(layout(*builder), header@, bytes_of(values@));
    }
    let header_offset = header.build(builder);
    let ghost b1 = *builder;
    let values_offset = build_values_vector(builder, values);
    let ghost b2 = *builder;
    assert(objects(b2).contains_key(header_offset));
    let inner = create_pair(builder, header_offset, values_offset);
    let ghost b3 = *builder;
    let ghost content = table_of(
        seq![
            Field::Child(header_node(header@)),
            Field::Child(values_node(bytes_of(values@))),
        ],
    );
    assert(objects(*builder)[inner] == content);
    let r = create_union(builder, code, inner);
    assert(objects(*builder)[r] == union_of(code, content));
    assert forall|o: u32| objects(*old(builder)).contains_key(o) implies #[trigger] objects(
        *builder,
    ).contains_key(o) && objects(*builder)[o] == objects(*old(builder))[o] by {
        assert(objects(b1).contains_key(o));
        assert(objects(b2).contains_key(o));
        assert(objects(b3).contains_key(o));
    }
    r
}

/// What the table of a message says of its fields.
spec fn content_vtable() -> Vtable {
    Vtable { size: 12, offsets: no_slots().update(0, Some(4nat)).update(1, Some(8nat)) }
}

/// How many bytes the header of a message has.
spec fn header_size(header: HeaderV) -> nat {
    let parts = rounded(
        rounded(encode_utf8(header.version).len() + 1, 4) + 4 + header.field_characteristic.len(),
        4,
    ) + 18;
    if header.field_degree == 0 {
        parts + 22
    } else {
        parts + 28
    }
}

/// A header at the end of a buffer.
proof fn lemma_first_header(header: HeaderV)
    ensures
        ({
            let h = header_layout(blank(), header);
            &&& h.used == header_size(header)
            &&& h.alignment == 4
            &&& h.vtables.contains(value_vtable())
            &&& !h.vtables.contains(content_vtable())
            &&& forall|t: Vtable| #[trigger] h.vtables.contains(t) ==> t.size != 12
        }),
{
    reveal(header_layout);
    let l = blank();
    let text = l.with_vector(encode_utf8(header.version).len() + 1);
    lemma_value_layout(text, header.field_characteristic.len());
    let parts = header_parts(l, header);
    let (fields, slots) = header_fields(l, header);
    let body = fields.with_item(4);
    assert(parts.used % 4 == 2);
    lemma_last_field(
        slots,
        if header.field_degree == 0 {
            2
        } else {
            3
        },
    );
    let vtable = vtable_of(parts.used, slots, body.used);
    assert(vtable.size == if header.field_degree == 0 {
        14nat
    } else {
        18nat
    });
}

/// Values after a header.
proof fn lemma_next_values(l: Layout, values: Seq<Seq<u8>>)
    requires
        l.vtables.contains(value_vtable()),
        l.alignment == 4,
    ensures
        each_value_layout(l, values) == (Layout { used: each_value_layout(l, values).used, ..l }),
    decreases values.len(),
{
    if values.len() > 0 {
        lemma_next_values(l, values.drop_last());
        let before = each_value_layout(l, values.drop_last());
        lemma_value_layout(before, values.last().len());
        assert(l.vtables.insert(value_vtable()) =~= l.vtables);
    }
}

/// The first table of two references in a buffer.
proof fn lemma_first_pair(l: Layout)
    requires
        l.used % 4 == 0,
        l.alignment == 4,
        !l.vtables.contains(content_vtable()),
    ensures
        pair_layout(l) == (Layout {
            used: l.used + 20,
            vtables: l.vtables.insert(content_vtable()),
            ..l
        }),
{
    reveal(pair_layout);
    let (fields, slots) = pair_fields(l);
    lemma_last_field(slots, 2);
    assert(vtable_of(l.used, slots, fields.with_item(4).used) =~= content_vtable());
}

/// What the table of a message with its code says of its fields.
spec fn message_vtable() -> Vtable {
    Vtable { size: 12, offsets: no_slots().update(0, Some(7nat)).update(1, Some(8nat)) }
}

/// The first table of a message with its code in a buffer.
proof fn lemma_first_union(l: Layout)
    requires
        l.used % 4 == 0,
        l.alignment == 4,
        !l.vtables.contains(message_vtable()),
    ensures
        union_layout(l).used == l.used + 20,
        union_layout(l).alignment == 4,
        union_crest(l) == l.used + 20,
{
    reveal(union_layout);
    reveal(union_crest);
    let child = l.with_item(4);
    let code = child.with_item(1);
    let slots = no_slots().update(1, Some(child.used)).update(0, Some(code.used));
    lemma_last_field(slots, 2);
    assert(vtable_of(l.used, slots, code.with_item(4).used) =~= message_vtable());
}

/// The values of a message after its header.
proof fn lemma_first_values(header: HeaderV, values: Seq<Seq<u8>>)
    ensures
        ({
            let h = header_layout(blank(), header);
            let v = values_layout(h, values);
            &&& v.used == rounded(each_value_layout(h, values).used + 4 * values.len(), 4) + 4
            &&& v.used % 4 == 0
            &&& v.alignment == 4
            &&& !v.vtables.contains(content_vtable())
            &&& !v.vtables.contains(message_vtable())
        }),
{
    let h = header_layout(blank(), header);
    lemma_first_header(header);
    lemma_next_values(h, values);
    let each = each_value_layout(h, values);
    assert(values_layout(h, values) == each.with_vector(4 * values.len()));
    assert(each.vtables == h.vtables);
    assert(message_vtable().size == 12);
}

/// How many bytes a message has, from those of its header and its values on.
proof fn lemma_message_size(header: HeaderV, values: Seq<Seq<u8>>, identified: bool)
    ensures
        ({
            let l = message_layout(blank(), header, values);
            let each = each_value_layout(header_layout(blank(), header), values);
            &&& l.used == rounded(each.used + 4 * values.len(), 4) + 44
            &&& message_crest(blank(), header, values) == l.used
            &&& message_size(header, values, identified) == l.used + (if identified {
                12nat
            } else {
                8nat
            })
        }),
{
    let h = header_layout(blank(), header);
    let v = values_layout(h, values);
    lemma_first_values(header, values);
    lemma_first_pair(v);
    let content = pair_layout(v);
    assert(message_vtable().offsets[0] != content_vtable().offsets[0]);
    assert(!content.vtables.contains(message_vtable()));
    lemma_first_union(content);
    let l = union_layout(content);
    assert(message_layout(blank(), header, values) == l);
    assert(l.used % 4 == 0);
}

/// A length, rounded up to a multiple of 4.
fn round_up(n: u64) -> (r: u64)
    requires
        n <= 0x4_0000_0000,
    ensures
        r == rounded(n as nat, 4),
{
    n + (4 - n % 4) % 4
}

/// Whether a message is within the size of a buffer.
fn message_fits(header: &Header, values: &Vec<Value>, identified: bool) -> (r: bool)
    ensures
        r == (message_size(header@, bytes_of(values@), identified) <= MAX_USED),
{
    let ghost all = bytes_of(values@);
    let ghost h = header_layout(blank(), header@);
    let version: usize = header.version.as_str().as_bytes().len();
    let characteristic: usize = header.field_characteristic.len();
    proof {
        lemma_message_size(header@, all, identified);
        lemma_first_header(header@);
        lemma_each_grows(h, all, 0);
        assert(all.take(0) =~= Seq::empty());
    }
    if version > MAX_USED || characteristic > MAX_USED {
        return false;
    }
    let text: u64 = round_up(version as u64 + 1) + 4;
    let parts: u64 = round_up(text + characteristic as u64) + 18;
    let mut total: u64 = if header.field_degree == 0 {
        parts + 22
    } else {
        parts + 28
    };
    let mut k: usize = 0;
    while k < values.len()
        invariant
            k <= values@.len(),
            all == bytes_of(values@),
            h == header_layout(blank(), header@),
            h.vtables.contains(value_vtable()),
            h.alignment == 4,
            message_size(header@, all, identified) >= each_value_layout(h, all).used + 4
                * all.len(),
            total == each_value_layout(h, all.take(k as int)).used,
            total <= 0x2_0000_0000,
        decreases values@.len() - k,
    {
        proof {
            lemma_each_grows(h, all, k as int);
            lemma_each_grows(h, all, k + 1);
            assert(all.take(k + 1).drop_last() =~= all.take(k as int));
            lemma_next_values(h, all.take(k as int));
            lemma_value_layout(
                each_value_layout(h, all.take(k as int)),
                all[k as int].len(),
            );
        }
        if total > MAX_USED as u64 || values[k].len() > MAX_USED {
            return false;
        }
        total = round_up(total + values[k].len() as u64) + 12;
        k = k + 1;
    }
    assert(all.take(k as int) =~= all);
    if total > MAX_USED as u64 || values.len() > MAX_USED {
        return false;
    }
    let size: u64 = round_up(total + 4 * values.len() as u64) + 44;
    if identified {
        size + 12 <= MAX_USED as u64
    } else {
        size + 8 <= MAX_USED as u64
    }
}

/// Appends a message that holds values to a buffer.
pub(crate) fn append_message(
    buffer: &mut Vec<u8>,
    code: u8,
    header: &Header,
    values: &Vec<Value>,
    identifier: Option<&str>,
) -> (r: Result<(), Error>)
    requires
        code != 0,
        identifier matches Some(id) ==> encode_utf8(id@).len() == 4,
    ensures
        appended(
            old(buffer)@,
            final(buffer)@,
            code,
            header@,
            bytes_of(values@),
            (match identifier {
                Some(id) => Some(encode_utf8(id@)),
                None => None,
            }),
            r,
        ),
{
    proof {
        lemma_message_size(header@, bytes_of(values@), identifier is Some);
    }
    if !message_fits(header, values, identifier.is_some()) {
        return Err(Error::new("cannot grow buffer beyond 2 gigabytes"));
    }
    let mut builder = new_builder();
    let message = build_message(&mut builder, code, header, values);
    let mut bytes = finish_message(builder, message, identifier);
    let ghost written = bytes@;
    buffer.append(&mut bytes);
    assert(buffer@.take(old(buffer)@.len() as int) =~= old(buffer)@);
    assert(buffer@.skip(old(buffer)@.len() as int) =~= written);
    Ok(())
}

/// Whether a message was appended to a buffer, or refused for its size with the
/// buffer unchanged.
pub open spec fn appended(
    before: Seq<u8>,
    after: Seq<u8>,
    code: u8,
    header: HeaderV,
    values: Seq<Seq<u8>>,
    identifier: Option<Seq<u8>>,
    r: Result<(), Error>,
) -> bool {
    match r {
        Ok(_) => {
            &&& message_size(header, values, identifier is Some) <= MAX_USED
            &&& after.len() == before.len() + message_size(header, values, identifier is Some)
            &&& after.take(before.len() as int) == before
            &&& is_message(
                after.skip(before.len() as int),
                identifier,
                message_node(code, header, values),
            )
        },
        Err(e) => {
            &&& message_size(header, values, identifier is Some) > MAX_USED
            &&& after == before
            &&& e@ == too_large_text()
        },
    }
}

/// Reading a message back gives what was written.
pub proof fn message_round_trip(
    b: Seq<u8>,
    identifier: Option<Seq<u8>>,
    code: u8,
    header: HeaderV,
    values: Seq<Seq<u8>>,
    not_text: Seq<char>,
    missing: Seq<char>,
)
    requires
        is_message(b, identifier, message_node(code, header, values)),
    ensures
        message_at(b, code, not_text, missing) == Ok::<(HeaderV, Seq<Seq<u8>>), Seq<char>>(
            (header, values),
        ),
{
    let root = target_at(b, 4)->Some_0;
    let fields = seq![Field::Child(header_node(header)), Field::Child(values_node(values))];
    lemma_union(b, root, code, table_of(fields));
    let t = child_at(b, root, 1)->Some_0;
    lemma_child(b, t, fields, 0);
    lemma_child(b, t, fields, 1);
    header_round_trip(b, child_at(b, t, 0)->Some_0, header);
    values_round_trip(b, child_at(b, t, 1)->Some_0, values);
}

/// How many bytes several values have.
pub open spec fn bytes_in(values: Seq<Seq<u8>>) -> nat
    decreases values.len(),
{
    if values.len() == 0 {
        0
    } else {
        bytes_in(values.drop_last()) + values.last().len()
    }
}

proof fn lemma_each_size(l: Layout, values: Seq<Seq<u8>>)
    requires
        l.vtables.contains(value_vtable()),
        l.alignment == 4,
    ensures
        l.used + bytes_in(values) <= each_value_layout(l, values).used <= l.used + bytes_in(values)
            + 15 * values.len(),
    decreases values.len(),
{
    if values.len() > 0 {
        let front = values.drop_last();
        lemma_each_size(l, front);
        lemma_next_values(l, front);
        lemma_value_layout(each_value_layout(l, front), values.last().len());
    }
}

/// A message takes up the bytes of its values and of the texts of its header, and not much
/// more: at most 19 bytes for each value and 120 besides.
pub proof fn messages_are_compact(header: HeaderV, values: Seq<Seq<u8>>, identified: bool)
    ensures
        ({
            let content = bytes_in(values) + header.field_characteristic.len() + encode_utf8(
                header.version,
            ).len();
            content <= message_size(header, values, identified) <= content + 19 * values.len()
                + 120
        }),
{
    lemma_message_size(header, values, identified);
    lemma_first_header(header);
    lemma_each_size(header_layout(blank(), header), values);
}

} // verus!
