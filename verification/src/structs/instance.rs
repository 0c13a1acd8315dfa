//! The public values of a statement.

use crate::error::Error;
use crate::flat::tables::kept_and_wrote;
use crate::flat::writer::{layout, open_tables, MAX_USED};
use crate::structs::encoding::{
    append_message, appended, build_message, message_at, message_crest, message_layout,
    message_node, message_round_trip, read_message, INSTANCE_CODE,
};
use crate::structs::header::{default_header, Header, HeaderV};
use crate::structs::wire::{bytes_of, Value};
use vstd::prelude::*;

verus! {

/// The values that instance gates take, in order.
#[derive(Clone, Debug, PartialEq, Eq, Hash)]
pub struct Instance {
    pub header: Header,
    pub common_inputs: Vec<Value>,
}

/// An instance as a mathematical value.
pub struct InstanceV {
    pub header: HeaderV,
    pub common_inputs: Seq<Seq<u8>>,
}

impl View for Instance {
    type V = InstanceV;

    open spec fn view(&self) -> InstanceV {
        InstanceV { header: self.header@, common_inputs: bytes_of(self.common_inputs@) }
    }
}

impl Default for Instance {
    fn default() -> (r: Self)
        ensures
            r.header@ == default_header(),
            r@.common_inputs.len() == 0,
    {
        Instance { header: Header::default(), common_inputs: Vec::new() }
    }
}

/// What bytes are read as, where they are an instance.
pub open spec fn instance_at(b: Seq<u8>) -> Result<InstanceV, Seq<char>> {
    match message_at(b, INSTANCE_CODE, "Not a Instance message."@, "Missing common_inputs"@) {
        Err(e) => Err(e),
        Ok((header, common_inputs)) => Ok(InstanceV { header, common_inputs }),
    }
}

impl Instance {
    /// Add this structure into a Flatbuffers message builder.
    pub fn build(&self, builder: &mut flatbuffers::FlatBufferBuilder<'static>) -> (r: u32)
        requires
            open_tables(*old(builder)).len() == 0,
            message_crest(layout(*old(builder)), self@.header, self@.common_inputs) < MAX_USED,
        ensures
            kept_and_wrote(
                *old(builder),
                *final(builder),
                r,
                message_node(INSTANCE_CODE, self@.header, self@.common_inputs),
            ),
            layout(*final(builder)) == message_layout(
                layout(*old(builder)),
                self@.header,
                self@.common_inputs,
            ),
    {
        build_message(builder, INSTANCE_CODE, &self.header, &self.common_inputs)
    }

    /// Writes this Instance as a Flatbuffers message into the provided buffer.
    pub fn write_into(&self, buffer: &mut Vec<u8>) -> (r: Result<(), Error>)
        ensures
            appended(
                old(buffer)@,
                final(buffer)@,
                INSTANCE_CODE,
                self@.header,
                self@.common_inputs,
                None,
                r,
            ),
    {
        append_message(
            buffer,
            INSTANCE_CODE,
            &self.header,
            &self.common_inputs,
            None,
        )
    }

    /// Reads an instance from the bytes of a message.
    pub fn try_from(buffer: &[u8]) -> (r: Result<Instance, Error>)
        ensures
            instance_at(buffer@) == (match r {
                Ok(x) => Ok::<InstanceV, Seq<char>>(x@),
                Err(e) => Err::<InstanceV, Seq<char>>(e@),
            }),
    {
        match read_message(buffer, INSTANCE_CODE, "Not a Instance message.", "Missing common_inputs") {
            Err(e) => Err(e),
            Ok((header, common_inputs)) => Ok(Instance { header, common_inputs }),
        }
    }
}

/// Reading an instance back from a buffer that it was appended to gives what was
/// written.
pub proof fn instance_round_trip(
    before: Seq<u8>,
    after: Seq<u8>,
    x: InstanceV,
    r: Result<(), Error>,
)
    requires
        appended(before, after, INSTANCE_CODE, x.header, x.common_inputs, None, r),
        r is Ok,
    ensures
        instance_at(after.skip(before.len() as int)) == Ok::<InstanceV, Seq<char>>(x),
{
    message_round_trip(
        after.skip(before.len() as int),
        None,
        INSTANCE_CODE,
        x.header,
        x.common_inputs,
        "Not a Instance message."@,
        "Missing common_inputs"@,
    );
}

} // verus!
