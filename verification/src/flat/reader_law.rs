//! What is read of objects that lie in bytes.

use crate::flat::model::{field_at, field_stored, stored, Field, Node};
use crate::flat::reader::{byte_at, child_at, count_at, long_at, value_at, word_at};
use vstd::prelude::*;

verus! {

/// A field of a table is read as what it was stored as.
pub proof fn stored_fields_are_read(b: Seq<u8>, p: int, fields: Seq<Option<Field>>, i: int)
    requires
        stored(b, p, Node::Table(fields)),
        0 <= i < fields.len(),
    ensures
        fields[i] matches Some(Field::Byte(x)) ==> byte_at(b, p, i) == x,
        fields[i] matches Some(Field::Word(x)) ==> word_at(b, p, i) == x,
        fields[i] matches Some(Field::Long(x)) ==> long_at(b, p, i) == Some(x),
        fields[i] matches Some(Field::Child(node)) ==> child_at(b, p, i) is Some && stored(
            b,
            child_at(b, p, i)->Some_0,
            node,
        ),
        fields[i] matches Some(Field::Child(Node::Bytes(x))) ==> value_at(b, p, i) == Some(x),
{
    lemma_lies(b, p, fields, i);
}

proof fn lemma_lies(b: Seq<u8>, p: int, fields: Seq<Option<Field>>, i: int)
    requires
        stored(b, p, Node::Table(fields)),
        0 <= i < fields.len(),
    ensures
        fields[i] matches Some(field) ==> field_at(b, p, i) is Some && field_stored(
            b,
            field_at(b, p, i)->Some_0,
            field,
        ),
{
}

/// A field that is left out of a table is read as zero, or as not there where it would be a
/// number of eight bytes or an object.
pub proof fn left_out_fields_are_read(b: Seq<u8>, p: int, fields: Seq<Option<Field>>, i: int)
    requires
        stored(b, p, Node::Table(fields)),
        0 <= i < fields.len(),
        fields[i] is None,
    ensures
        byte_at(b, p, i) == 0,
        word_at(b, p, i) == 0,
        long_at(b, p, i) is None,
        child_at(b, p, i) is None,
        value_at(b, p, i) is None,
{
}

/// A vector of objects is read as having as many as it was stored with.
pub proof fn stored_objects_are_counted(b: Seq<u8>, p: int, list: Seq<Node>)
    requires
        stored(b, p, Node::Nodes(list)),
    ensures
        count_at(b, p) == Some(list.len()),
{
}

} // verus!
