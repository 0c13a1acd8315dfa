//! The private values of a statement.

use crate::error::Error;
use crate::flat::tables::kept_and_wrote;
use crate::flat::writer::{layout, open_tables, MAX_USED};
use crate::structs::encoding::{
    append_message, appended, build_message, message_at, message_crest, message_layout,
    message_node, message_round_trip, read_message, WITNESS_CODE,
};
use crate::structs::header::{default_header, Header, HeaderV};
use crate::structs::wire::{bytes_of, Value};
use vstd::prelude::*;
use vstd::utf8::{encode_utf8, is_ascii_chars, is_ascii_chars_encode_utf8};

verus! {

/// The values that witness gates take, in order.
#[derive(Clone, Debug, PartialEq, Eq, Hash)]
pub struct Witness {
    pub header: Header,
    pub short_witness: Vec<Value>,
}

/// A witness as a mathematical value.
pub struct WitnessV {
    pub header: HeaderV,
    pub short_witness: Seq<Seq<u8>>,
}

impl View for Witness {
    type V = WitnessV;

    open spec fn view(&self) -> WitnessV {
        WitnessV { header: self.header@, short_witness: bytes_of(self.short_witness@) }
    }
}

impl Default for Witness {
    fn default() -> (r: Self)
        ensures
            r.header@ == default_header(),
            r@.short_witness.len() == 0,
    {
        Witness { header: Header::default(), short_witness: Vec::new() }
    }
}

/// What bytes are read as, where they are a witness.
pub open spec fn witness_at(b: Seq<u8>) -> Result<WitnessV, Seq<char>> {
    match message_at(b, WITNESS_CODE, "Not a Witness message."@, "Missing short_witness"@) {
        Err(e) => Err(e),
        Ok((header, short_witness)) => Ok(WitnessV { header, short_witness }),
    }
}

proof fn lemma_identifier()
    ensures
        encode_utf8("siev"@).len() == 4,
{
    reveal_strlit("siev");
    assert(is_ascii_chars("siev"@));
    is_ascii_chars_encode_utf8("siev"@);
}

impl Witness {
    /// Add this structure into a Flatbuffers message builder.
    pub fn build(&self, builder: &mut flatbuffers::FlatBufferBuilder<'static>) -> (r: u32)
        requires
            open_tables(*old(builder)).len() == 0,
            message_crest(layout(*old(builder)), self@.header, self@.short_witness) < MAX_USED,
        ensures
            kept_and_wrote(
                *old(builder),
                *final(builder),
                r,
                message_node(WITNESS_CODE, self@.header, self@.short_witness),
            ),
            layout(*final(builder)) == message_layout(
                layout(*old(builder)),
                self@.header,
                self@.short_witness,
            ),
    {
        build_message(builder, WITNESS_CODE, &self.header, &self.short_witness)
    }

    /// Writes this Witness as a Flatbuffers message into the provided buffer.
    pub fn write_into(&self, buffer: &mut Vec<u8>) -> (r: Result<(), Error>)
        ensures
            appended(
                old(buffer)@,
                final(buffer)@,
                WITNESS_CODE,
                self@.header,
                self@.short_witness,
                Some(encode_utf8("siev"@)),
                r,
            ),
    {
        proof {
            lemma_identifier();
        }
        append_message(
            buffer,
            WITNESS_CODE,
            &self.header,
            &self.short_witness,
            Some("siev"),
        )
    }

    /// Reads a witness from the bytes of a message.
    pub fn try_from(buffer: &[u8]) -> (r: Result<Witness, Error>)
        ensures
            witness_at(buffer@) == (match r {
                Ok(x) => Ok::<WitnessV, Seq<char>>(x@),
                Err(e) => Err::<WitnessV, Seq<char>>(e@),
            }),
    {
        match read_message(buffer, WITNESS_CODE, "Not a Witness message.", "Missing short_witness") {
            Err(e) => Err(e),
            Ok((header, short_witness)) => Ok(Witness { header, short_witness }),
        }
    }
}

/// Reading a witness back from a buffer that it was appended to gives what was
/// written.
pub proof fn witness_round_trip(before: Seq<u8>, after: Seq<u8>, x: WitnessV, r: Result<(), Error>)
    requires
        appended(
            before,
            after,
            WITNESS_CODE,
            x.header,
            x.short_witness,
            Some(encode_utf8("siev"@)),
            r,
        ),
        r is Ok,
    ensures
        witness_at(after.skip(before.len() as int)) == Ok::<WitnessV, Seq<char>>(x),
{
    message_round_trip(
        after.skip(before.len() as int),
        Some(encode_utf8("siev"@)),
        WITNESS_CODE,
        x.header,
        x.short_witness,
        "Not a Witness message."@,
        "Missing short_witness"@,
    );
}

} // verus!
