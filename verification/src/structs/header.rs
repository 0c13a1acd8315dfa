//! What every message says of its circuit.

use crate::error::Error;
use crate::flat::layout::{lemma_last_field, lemma_table_cost, no_slots, Layout};
use crate::flat::model::{stored, table_of, Field, Node};
use crate::flat::reader::{child_at, find_child, read_value, read_word, value_at, word_at};
use crate::flat::tables::{kept_and_wrote, lemma_child, lemma_field};
use crate::flat::writer::{
    create_text, end_table, layout, objects, open_tables, push_reference, push_word, start_table,
    MAX_USED,
};
use crate::structs::value::{build_value, lemma_value_layout, value_layout, value_node};
use crate::structs::wire::Value;
use vstd::prelude::*;
use vstd::string::*;
use vstd::utf8::{decode_utf8, encode_utf8, valid_utf8};

verus! {

/// The version of the format that headers name.
pub const IR_VERSION: &'static str = "1.0.0";

/// The version of the format and the field of a circuit.
#[derive(Debug, PartialEq, Eq, Hash)]
pub struct Header {
    pub version: String,
    pub field_characteristic: Value,
    pub field_degree: u32,
}

/// A header as a mathematical value.
pub struct HeaderV {
    pub version: Seq<char>,
    pub field_characteristic: Seq<u8>,
    pub field_degree: u32,
}

impl View for Header {
    type V = HeaderV;

    open spec fn view(&self) -> HeaderV {
        HeaderV {
            version: self.version@,
            field_characteristic: self.field_characteristic@,
            field_degree: self.field_degree,
        }
    }
}

/// The header that is meant where none is given.
pub open spec fn default_header() -> HeaderV {
    HeaderV { version: IR_VERSION@, field_characteristic: seq![0u8], field_degree: 1 }
}

impl Default for Header {
    fn default() -> (r: Self)
        ensures
            r@ == default_header(),
    {
        let field_characteristic: Value = vec![0u8];
        assert(field_characteristic@ =~= seq![0u8]);
        Header { version: IR_VERSION.to_owned(), field_characteristic, field_degree: 1 }
    }
}

impl Clone for Header {
    fn clone(&self) -> (r: Self)
        ensures
            r@ == self@,
    {
        let field_characteristic = self.field_characteristic.clone();
        assert(field_characteristic@ =~= self.field_characteristic@);
        Header {
            version: self.version.clone(),
            field_characteristic,
            field_degree: self.field_degree,
        }
    }
}

/// The binary form of a header: a table of its version, the value of its
/// characteristic, and its degree, which is left out if it is zero.
pub open spec fn header_node(h: HeaderV) -> Node {
    let version = Field::Child(Node::Bytes(encode_utf8(h.version)));
    let characteristic = Field::Child(value_node(h.field_characteristic));
    if h.field_degree == 0 {
        table_of(seq![version, characteristic])
    } else {
        table_of(seq![version, characteristic, Field::Word(h.field_degree)])
    }
}

/// How far a buffer has grown with the objects that a header refers to.
pub open spec fn header_parts(l: Layout, h: HeaderV) -> Layout {
    value_layout(l.with_vector(encode_utf8(h.version).len() + 1), h.field_characteristic.len())
}

/// How far a buffer has grown with the fields of a header, and where these lie.
pub open spec fn header_fields(l: Layout, h: HeaderV) -> (Layout, Seq<Option<nat>>) {
    let parts = header_parts(l, h);
    let (degree, slots) = if h.field_degree == 0 {
        (parts, no_slots())
    } else {
        (parts.with_item(4), no_slots().update(2, Some(parts.with_item(4).used)))
    };
    let characteristic = degree.with_item(4);
    let version = characteristic.with_item(4);
    (
        version,
        slots.update(1, Some(characteristic.used)).update(0, Some(version.used)),
    )
}

/// How far a buffer has grown with a header.
#[verifier::opaque]
pub open spec fn header_layout(l: Layout, h: HeaderV) -> Layout {
    let (fields, slots) = header_fields(l, h);
    fields.with_table(header_parts(l, h).used, slots)
}

/// How many bytes there are for a moment while a header is written.
pub proof fn lemma_header_crest(l: Layout, h: HeaderV)
    ensures
        ({
            let (fields, slots) = header_fields(l, h);
            &&& fields.crest(slots) <= header_layout(l, h).used + 10
            &&& header_parts(l, h).used + 12 <= header_layout(l, h).used
            &&& fields.used <= header_layout(l, h).used
        }),
{
    reveal(header_layout);
    let (fields, slots) = header_fields(l, h);
    lemma_table_cost(fields, header_parts(l, h).used, slots);
    lemma_last_field(
        slots,
        if h.field_degree == 0 {
            2
        } else {
            3
        },
    );
}

/// The header whose binary form lies at a position.
pub open spec fn header_at(b: Seq<u8>, t: int) -> Result<HeaderV, Seq<char>> {
    match value_at(b, t, 0) {
        None => Err("Missing version"@),
        Some(version) => if !valid_utf8(version) {
            Err("Invalid version"@)
        } else {
            match child_at(b, t, 1) {
                None => Err("Missing field characteristic"@),
                Some(v) => match value_at(b, v, 0) {
                    None => Err("Missing field characteristic"@),
                    Some(field_characteristic) => Ok(
                        HeaderV {
                            version: decode_utf8(version),
                            field_characteristic,
                            field_degree: word_at(b, t, 2),
                        },
                    ),
                },
            }
        },
    }
}

/// `String::from_utf8`: the text that bytes are, if they are UTF-8.
#[verifier::external_body]
fn text_of(bytes: Vec<u8>) -> (r: Option<String>)
    ensures
        r is Some == valid_utf8(bytes@),
        r matches Some(s) ==> s@ == decode_utf8(bytes@),
{
    String::from_utf8(bytes).ok()
}

impl Header {
    /// Add this structure into a Flatbuffers message builder.
    pub fn build(&self, builder: &mut flatbuffers::FlatBufferBuilder<'static>) -> (r: u32)
        requires
            open_tables(*old(builder)).len() == 0,
            header_layout(layout(*old(builder)), self@).used + 10 < MAX_USED,
        ensures
            kept_and_wrote(*old(builder), *final(builder), r, header_node(self@)),
            layout(*final(builder)) == header_layout(layout(*old(builder)), self@),
    {
        proof {
            reveal(header_layout);
            let l = layout(*builder);
            lemma_header_crest(l, self@);
            lemma_value_layout(
                l.with_vector(encode_utf8(self.version@).len() + 1),
                self.field_characteristic@.len(),
            );
        }
        let version = create_text(builder, self.version.as_str());
        let characteristic = build_value(builder, &self.field_characteristic);
        assert(objects(*builder).contains_key(version));
        let start = start_table(builder);
        push_word(builder, 2, self.field_degree);
        push_reference(builder, 1, characteristic);
        push_reference(builder, 0, version);
        assert(Node::Table(open_tables(*builder)[0].1) == header_node(self@)) by {
            let fields = open_tables(*builder)[0].1;
            let node = header_node(self@)->Table_0;
            assert(fields.len() == node.len());
            assert(fields[0] == node[0]);
            assert(fields[1] == node[1]);
            assert(fields[2] == node[2]);
            assert(fields =~= node);
        }
        end_table(builder, start)
    }

    /// Reads a header whose binary form lies at a position.
    pub fn try_from_table(b: &[u8], table: usize) -> (r: Result<Header, Error>)
        ensures
            header_at(b@, table as int) == (match r {
                Ok(h) => Ok::<HeaderV, Seq<char>>(h@),
                Err(e) => Err::<HeaderV, Seq<char>>(e@),
            }),
    {
        let version = match read_value(b, table, 0) {
            None => {
                return Err(Error::new("Missing version"));
            },
            Some(bytes) => match text_of(bytes) {
                None => {
                    return Err(Error::new("Invalid version"));
                },
                Some(version) => version,
            },
        };
        let value = match find_child(b, table, 1) {
            None => {
                return Err(Error::new("Missing field characteristic"));
            },
            Some(p) => p,
        };
        match read_value(b, value, 0) {
            None => Err(Error::new("Missing field characteristic")),
            Some(field_characteristic) => Ok(
                Header { version, field_characteristic, field_degree: read_word(b, table, 2) },
            ),
        }
    }
}

/// Reading a header back gives what was written.
pub proof fn header_round_trip(b: Seq<u8>, p: int, h: HeaderV)
    requires
        stored(b, p, header_node(h)),
    ensures
        header_at(b, p) == Ok::<HeaderV, Seq<char>>(h),
{
    broadcast use {vstd::utf8::encode_utf8_valid_utf8, vstd::utf8::encode_utf8_decode_utf8};

    let version = Field::Child(Node::Bytes(encode_utf8(h.version)));
    let characteristic = Field::Child(value_node(h.field_characteristic));
    let fields = if h.field_degree == 0 {
        seq![version, characteristic]
    } else {
        seq![version, characteristic, Field::Word(h.field_degree)]
    };
    lemma_child(b, p, fields, 0);
    lemma_child(b, p, fields, 1);
    lemma_child(
        b,
        child_at(b, p, 1)->Some_0,
        seq![Field::Child(Node::Bytes(h.field_characteristic))],
        0,
    );
    if h.field_degree == 0 {
        assert((table_of(fields)->Table_0)[2] is None);
    } else {
        lemma_field(b, p, fields, 2);
    }
}

/// The header that is meant where none is given names no field: its characteristic is zero, of
/// degree one.
pub proof fn default_names_no_field()
    ensures
        crate::number::le_value(default_header().field_characteristic) == 0,
        default_header().field_degree == 1,
        default_header().version == IR_VERSION@,
{
    reveal_with_fuel(crate::number::le_value, 2);
    assert(default_header().field_characteristic.drop_first() =~= Seq::empty());
}

} // verus!
