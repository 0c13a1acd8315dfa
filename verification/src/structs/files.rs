//! Files of messages that hold values, one after the other.

use crate::error::Error;
use crate::flat::model::{is_message, number_at, table_of, target_at, Field};
use crate::flat::reader::read_four;
use crate::flat::tables::lemma_union;
use crate::structs::encoding::{appended, message_node, INSTANCE_CODE, WITNESS_CODE};
use crate::structs::header::{header_node, HeaderV};
use crate::structs::instance::{instance_at, instance_round_trip, Instance, InstanceV};
use crate::structs::message::Message;
use crate::structs::value::values_node;
use crate::structs::witness::{witness_at, witness_round_trip, Witness, WitnessV};
use vstd::prelude::*;
use vstd::slice::slice_subrange;
use vstd::utf8::encode_utf8;

verus! {

/// A message that holds values, as a mathematical value.
pub enum ValuesV {
    Instance(InstanceV),
    Witness(WitnessV),
}

/// What bytes are read as, where they are a message that holds values.
#[verifier::opaque]
pub open spec fn values_message_at(b: Seq<u8>) -> Result<ValuesV, Seq<char>> {
    match instance_at(b) {
        Ok(x) => Ok(ValuesV::Instance(x)),
        Err(_) => match witness_at(b) {
            Ok(x) => Ok(ValuesV::Witness(x)),
            Err(t) => Err(t),
        },
    }
}

/// Where the message that starts at a place of a file ends, if it is all there. A message
/// begins with the length of what follows, in four little-endian bytes.
pub open spec fn ends_at(b: Seq<u8>, start: int) -> Option<int> {
    if start + 4 > b.len() {
        None
    } else {
        let end = start + 4 + number_at(b, start, 4);
        if end > b.len() {
            None
        } else {
            Some(end)
        }
    }
}

pub open spec fn cut_off_text() -> Seq<char> {
    "A message is cut off."@
}

/// The messages from a place of a file on.
pub open spec fn messages_from(b: Seq<u8>, start: int) -> Result<Seq<ValuesV>, Seq<char>>
    decreases b.len() - start,
{
    if start >= b.len() {
        Ok(Seq::empty())
    } else {
        match ends_at(b, start) {
            None => Err(cut_off_text()),
            Some(end) => match values_message_at(b.subrange(start, end)) {
                Err(t) => Err(t),
                Ok(first) => match messages_from(b, end) {
                    Err(t) => Err(t),
                    Ok(rest) => Ok(seq![first] + rest),
                },
            },
        }
    }
}

/// Messages that hold values, as mathematical values.
pub open spec fn values_of(messages: Seq<Message>) -> Seq<ValuesV> {
    messages.map_values(
        |m: Message|
            match m {
                Message::Instance(x) => ValuesV::Instance(x@),
                Message::Witness(x) => ValuesV::Witness(x@),
                Message::Relation(_) => arbitrary(),
            },
    )
}

/// Messages, and the messages that follow them if they can be read.
pub open spec fn following(
    done: Seq<ValuesV>,
    rest: Result<Seq<ValuesV>, Seq<char>>,
) -> Result<Seq<ValuesV>, Seq<char>> {
    match rest {
        Err(t) => Err(t),
        Ok(rest) => Ok(done + rest),
    }
}

/// Finds the end of the message that starts at a place of a file.
fn message_end(b: &[u8], start: usize) -> (r: Option<usize>)
    ensures
        match r {
            Some(end) => ends_at(b@, start as int) == Some(end as int),
            None => ends_at(b@, start as int) is None,
        },
{
    if start > b.len() || b.len() - start < 4 {
        return None;
    }
    let n: u32 = read_four(b, start);
    let left: usize = b.len() - start - 4;
    if n as u64 > left as u64 {
        None
    } else {
        Some(start + 4 + n as usize)
    }
}

/// Reads all messages of a file.
pub fn read_messages(b: &[u8]) -> (r: Result<Vec<Message>, Error>)
    ensures
        messages_from(b@, 0) == (match r {
            Ok(list) => Ok::<Seq<ValuesV>, Seq<char>>(values_of(list@)),
            Err(e) => Err::<Seq<ValuesV>, Seq<char>>(e@),
        }),
        r matches Ok(list) ==> forall|i: int|
            0 <= i < list@.len() ==> !(#[trigger] list@[i] is Relation),
{
    let mut list: Vec<Message> = Vec::new();
    let mut start: usize = 0;
    proof {
        let rest = messages_from(b@, 0);
        if rest is Ok {
            assert(values_of(list@) + rest->Ok_0 =~= rest->Ok_0);
        }
    }
    while start < b.len()
        invariant
            start <= b@.len(),
            messages_from(b@, 0) == following(values_of(list@), messages_from(b@, start as int)),
            forall|i: int| 0 <= i < list@.len() ==> !(#[trigger] list@[i] is Relation),
        decreases b@.len() - start,
    {
        let end = match message_end(b, start) {
            None => {
                return Err(Error::new("A message is cut off."));
            },
            Some(end) => end,
        };
        let bytes = slice_subrange(b, start, end);
        proof {
            reveal(values_message_at);
        }
        let message = match Instance::try_from(bytes) {
            Ok(x) => Message::Instance(x),
            Err(_) => match Witness::try_from(bytes) {
                Ok(x) => Message::Witness(x),
                Err(e) => {
                    return Err(e);
                },
            },
        };
        let ghost before = list@;
        list.push(message);
        proof {
            reveal(values_message_at);
            let first = values_message_at(bytes@)->Ok_0;
            assert(values_of(list@) =~= values_of(before).push(first));
            let rest = messages_from(b@, end as int);
            if rest is Ok {
                assert(values_of(before) + (seq![first] + rest->Ok_0) =~= values_of(list@)
                    + rest->Ok_0);
            }
        }
        start = end;
    }
    assert(values_of(list@) + Seq::empty() =~= values_of(list@));
    Ok(list)
}

/// A message that is appended to a file is read after those that were there.
pub proof fn appended_is_read_last(before: Seq<u8>, message: Seq<u8>, start: int)
    requires
        0 <= start <= before.len(),
        ends_at(message, 0) == Some(message.len() as int),
        messages_from(before, start) is Ok,
        values_message_at(message) is Ok,
    ensures
        messages_from(before + message, start) == Ok::<Seq<ValuesV>, Seq<char>>(
            messages_from(before, start)->Ok_0.push(values_message_at(message)->Ok_0),
        ),
    decreases before.len() - start,
{
    let whole = before + message;
    if start == before.len() {
        assert(whole.subrange(start, start + 4) =~= message.subrange(0, 4));
        assert(whole.subrange(start, whole.len() as int) =~= message);
        let last = values_message_at(message)->Ok_0;
        assert(messages_from(whole, whole.len() as int) == Ok::<Seq<ValuesV>, Seq<char>>(
            Seq::empty(),
        ));
        assert(seq![last] + Seq::empty() =~= Seq::empty().push(last));
    } else {
        let end = ends_at(before, start)->Some_0;
        assert(whole.subrange(start, start + 4) =~= before.subrange(start, start + 4));
        assert(whole.subrange(start, end) =~= before.subrange(start, end));
        appended_is_read_last(before, message, end);
        let first = values_message_at(before.subrange(start, end))->Ok_0;
        let rest = messages_from(before, end)->Ok_0;
        let last = values_message_at(message)->Ok_0;
        assert(seq![first] + rest.push(last) =~= (seq![first] + rest).push(last));
    }
}

/// What is appended is a message that ends where it says.
proof fn lemma_parts(
    before: Seq<u8>,
    after: Seq<u8>,
    code: u8,
    header: HeaderV,
    values: Seq<Seq<u8>>,
    identifier: Option<Seq<u8>>,
    r: Result<(), Error>,
)
    requires
        appended(before, after, code, header, values, identifier, r),
        r is Ok,
    ensures
        before + after.skip(before.len() as int) == after,
        ends_at(after.skip(before.len() as int), 0) == Some(after.len() - before.len()),
{
    assert(before + after.skip(before.len() as int) =~= after);
}

proof fn lemma_reads(b: Seq<u8>)
    ensures
        instance_at(b) matches Ok(x) ==> values_message_at(b) == Ok::<ValuesV, Seq<char>>(
            ValuesV::Instance(x),
        ),
        instance_at(b) is Err ==> (witness_at(b) matches Ok(x) ==> values_message_at(b) == Ok::<
            ValuesV,
            Seq<char>,
        >(ValuesV::Witness(x))),
{
    reveal(values_message_at);
}

/// An instance that is appended to a file is read after the messages that were there.
pub proof fn instance_is_read_last(
    before: Seq<u8>,
    after: Seq<u8>,
    x: InstanceV,
    r: Result<(), Error>,
)
    requires
        messages_from(before, 0) is Ok,
        appended(before, after, INSTANCE_CODE, x.header, x.common_inputs, None, r),
        r is Ok,
    ensures
        messages_from(after, 0) == Ok::<Seq<ValuesV>, Seq<char>>(
            messages_from(before, 0)->Ok_0.push(ValuesV::Instance(x)),
        ),
{
    let message = after.skip(before.len() as int);
    lemma_parts(before, after, INSTANCE_CODE, x.header, x.common_inputs, None, r);
    assert(values_message_at(message) == Ok::<ValuesV, Seq<char>>(ValuesV::Instance(x))) by {
        instance_round_trip(before, after, x, r);
        lemma_reads(message);
    }
    appended_is_read_last(before, message, 0);
}

/// A witness is not read as an instance.
proof fn lemma_no_instance(b: Seq<u8>, x: WitnessV)
    requires
        is_message(
            b,
            Some(encode_utf8("siev"@)),
            message_node(WITNESS_CODE, x.header, x.short_witness),
        ),
    ensures
        instance_at(b) is Err,
{
    let root = target_at(b, 4)->Some_0;
    let fields = seq![
        Field::Child(header_node(x.header)),
        Field::Child(values_node(x.short_witness)),
    ];
    lemma_union(b, root, WITNESS_CODE, table_of(fields));
}

/// A witness that is appended to a file is read after the messages that were there.
pub proof fn witness_is_read_last(
    before: Seq<u8>,
    after: Seq<u8>,
    x: WitnessV,
    r: Result<(), Error>,
)
    requires
        messages_from(before, 0) is Ok,
        appended(
            before,
            after,
            WITNESS_CODE,
            x.header,
            x.short_witness,
            Some(encode_utf8("siev"@)),
            r,
        ),
        r is Ok,
    ensures
        messages_from(after, 0) == Ok::<Seq<ValuesV>, Seq<char>>(
            messages_from(before, 0)->Ok_0.push(ValuesV::Witness(x)),
        ),
{
    let message = after.skip(before.len() as int);
    let id = Some(encode_utf8("siev"@));
    lemma_parts(before, after, WITNESS_CODE, x.header, x.short_witness, id, r);
    assert(values_message_at(message) == Ok::<ValuesV, Seq<char>>(ValuesV::Witness(x))) by {
        witness_round_trip(before, after, x, r);
        lemma_no_instance(message, x);
        lemma_reads(message);
    }
    appended_is_read_last(before, message, 0);
}

/// A file that ends in the middle of a message is refused, whatever came before.
pub proof fn cut_off_files_are_refused(before: Seq<u8>, message: Seq<u8>, n: int, start: int)
    requires
        0 <= start <= before.len(),
        ends_at(message, 0) == Some(message.len() as int),
        messages_from(before, start) is Ok,
        0 < n < message.len(),
    ensures
        messages_from(before + message.take(n), start) is Err,
    decreases before.len() - start,
{
    let whole = before + message.take(n);
    if start == before.len() {
        if n >= 4 {
            assert(whole.subrange(start, start + 4) =~= message.subrange(0, 4));
        }
        assert(ends_at(whole, start) is None);
    } else {
        let end = ends_at(before, start)->Some_0;
        assert(whole.subrange(start, start + 4) =~= before.subrange(start, start + 4));
        assert(whole.subrange(start, end) =~= before.subrange(start, end));
        cut_off_files_are_refused(before, message, n, end);
    }
}

/// A file without bytes has no messages.
pub proof fn empty_files_have_no_messages()
    ensures
        messages_from(Seq::empty(), 0) == Ok::<Seq<ValuesV>, Seq<char>>(Seq::empty()),
{
}

/// Two files one after the other have the messages of both, in order.
pub proof fn files_follow_files(first: Seq<u8>, second: Seq<u8>, start: int)
    requires
        0 <= start <= first.len(),
        messages_from(first, start) is Ok,
    ensures
        messages_from(first + second, start) == following(
            messages_from(first, start)->Ok_0,
            messages_from(second, 0),
        ),
    decreases first.len() - start,
{
    let whole = first + second;
    if start == first.len() {
        lemma_later_file(first, second, 0);
        let rest = messages_from(second, 0);
        if rest is Ok {
            assert(Seq::<ValuesV>::empty() + rest->Ok_0 =~= rest->Ok_0);
        }
    } else {
        let end = ends_at(first, start)->Some_0;
        assert(whole.subrange(start, start + 4) =~= first.subrange(start, start + 4));
        assert(whole.subrange(start, end) =~= first.subrange(start, end));
        files_follow_files(first, second, end);
        let one = values_message_at(first.subrange(start, end))->Ok_0;
        let own = messages_from(first, end)->Ok_0;
        let rest = messages_from(second, 0);
        if rest is Ok {
            assert(seq![one] + (own + rest->Ok_0) =~= (seq![one] + own) + rest->Ok_0);
        }
    }
}

proof fn lemma_later_file(first: Seq<u8>, second: Seq<u8>, at: int)
    requires
        0 <= at <= second.len(),
    ensures
        messages_from(first + second, first.len() + at) == messages_from(second, at),
    decreases second.len() - at,
{
    let whole = first + second;
    let start = first.len() + at;
    if at < second.len() {
        if at + 4 <= second.len() {
            assert(whole.subrange(start, start + 4) =~= second.subrange(at, at + 4));
        }
        if ends_at(second, at) is Some {
            let end = ends_at(second, at)->Some_0;
            assert(ends_at(whole, start) == Some(first.len() + end));
            assert(whole.subrange(start, first.len() + end) =~= second.subrange(at, end));
            lemma_later_file(first, second, end);
        }
    }
}

} // verus!
