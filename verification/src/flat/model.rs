//! What FlatBuffers hold, and how it lies in their bytes.

use crate::number::le_value;
use vstd::prelude::*;

verus! {

/// How many fields a table may have here.
pub const MAX_FIELDS: i16 = 6;

/// An object of a buffer.
pub enum Node {
    /// A vector of bytes, or a string.
    Bytes(Seq<u8>),
    /// A table: its fields by index, those that are left out being `None`.
    Table(Seq<Option<Field>>),
    /// A vector of objects.
    Nodes(Seq<Node>),
}

/// A field of a table.
pub enum Field {
    Byte(u8),
    Word(u32),
    Long(u64),
    Child(Node),
}

/// A table without fields.
pub open spec fn no_fields() -> Seq<Option<Field>> {
    Seq::new(MAX_FIELDS as nat, |i: int| None)
}

/// A table with its first fields.
pub open spec fn table_of(fields: Seq<Field>) -> Node {
    Node::Table(
        Seq::new(
            MAX_FIELDS as nat,
            |i: int|
                if i < fields.len() {
                    Some(fields[i])
                } else {
                    None
                },
        ),
    )
}

/// A table that holds one of several kinds of tables, told apart by a code.
pub open spec fn union_of(code: u8, node: Node) -> Node {
    table_of(seq![Field::Byte(code), Field::Child(node)])
}

/// The number that `n` bytes from a position on stand for.
pub open spec fn number_at(b: Seq<u8>, p: int, n: int) -> nat {
    le_value(b.subrange(p, p + n))
}

/// The distance from a table back to its vtable, which may be negative.
pub open spec fn distance_at(b: Seq<u8>, p: int) -> int {
    let n = number_at(b, p, 4);
    if n < 0x8000_0000 {
        n as int
    } else {
        n - 0x1_0000_0000
    }
}

/// Where the field of a table with an index lies, if it is there. The table starts
/// with the distance to its vtable, which holds its own length, the length of the
/// table, and for each field its distance from the table's start, zero for those
/// that are left out.
pub open spec fn field_at(b: Seq<u8>, table: int, index: int) -> Option<int> {
    if table < 0 || table + 4 > b.len() {
        None
    } else {
        let vtable = table - distance_at(b, table);
        let slot = 4 + 2 * index;
        if vtable < 0 || vtable + 2 > b.len() || slot >= number_at(b, vtable, 2) || vtable + slot
            + 2 > b.len() || number_at(b, vtable + slot, 2) == 0 || table + number_at(
            b,
            vtable + slot,
            2,
        ) >= b.len() {
            None
        } else {
            Some(table + number_at(b, vtable + slot, 2))
        }
    }
}

/// Where the object lies that a position refers to, if the reference is there.
pub open spec fn target_at(b: Seq<u8>, p: int) -> Option<int> {
    if p < 0 || p + 4 > b.len() || p + number_at(b, p, 4) >= b.len() {
        None
    } else {
        Some(p + number_at(b, p, 4))
    }
}

/// The vector of bytes at a position.
pub open spec fn bytes_at(b: Seq<u8>, p: int) -> Option<Seq<u8>> {
    if p < 0 || p + 4 > b.len() || p + 4 + number_at(b, p, 4) > b.len() {
        None
    } else {
        Some(b.subrange(p + 4, p + 4 + number_at(b, p, 4)))
    }
}

/// Whether an object lies at a position.
pub open spec fn stored(b: Seq<u8>, p: int, node: Node) -> bool
    decreases node,
{
    match node {
        Node::Bytes(bytes) => bytes_at(b, p) == Some(bytes),
        Node::Table(fields) => forall|i: int|
            0 <= i < fields.len() ==> (match #[trigger] fields[i] {
                None => field_at(b, p, i) is None,
                Some(field) => field_at(b, p, i) is Some && field_stored(
                    b,
                    field_at(b, p, i)->Some_0,
                    field,
                ),
            }),
        Node::Nodes(list) => {
            &&& 0 <= p
            &&& p + 4 + 4 * list.len() <= b.len()
            &&& number_at(b, p, 4) == list.len()
            &&& forall|i: int|
                0 <= i < list.len() ==> {
                    &&& target_at(b, p + 4 + 4 * i) is Some
                    &&& stored(b, target_at(b, p + 4 + 4 * i)->Some_0, #[trigger] list[i])
                }
        },
    }
}

/// Whether a field lies at a position.
pub open spec fn field_stored(b: Seq<u8>, p: int, field: Field) -> bool
    decreases field,
{
    match field {
        Field::Byte(x) => 0 <= p && p + 1 <= b.len() && b[p] == x,
        Field::Word(x) => 0 <= p && p + 4 <= b.len() && number_at(b, p, 4) == x,
        Field::Long(x) => 0 <= p && p + 8 <= b.len() && number_at(b, p, 8) == x,
        Field::Child(node) => target_at(b, p) is Some && stored(
            b,
            target_at(b, p)->Some_0,
            node,
        ),
    }
}

/// Whether bytes are a message with an object at its root: its length without these
/// four bytes, the reference to the root, the four bytes of its identifier if it has
/// one, and all objects.
pub open spec fn is_message(b: Seq<u8>, identifier: Option<Seq<u8>>, root: Node) -> bool {
    &&& b.len() >= 8
    &&& number_at(b, 0, 4) == b.len() - 4
    &&& target_at(b, 4) is Some
    &&& stored(b, target_at(b, 4)->Some_0, root)
    &&& identifier matches Some(id) ==> b.len() >= 12 && b.subrange(8, 12) == id
}

} // verus!
