//! Wires and lists of wires.

use crate::error::{decimal, decimal_text, Error};
use vstd::prelude::*;
use vstd::string::*;

verus! {

/// The number of a wire in its scope.
pub type WireId = u64;

/// A field element as little-endian bytes.
pub type Value = Vec<u8>;

/// A wire, or all the wires from a first to a last one.
#[derive(Clone, Copy, Debug, PartialEq, Eq, Hash)]
pub enum WireListElement {
    Wire(WireId),
    WireRange(WireId, WireId),
}

pub type WireList = Vec<WireListElement>;

/// A value of its own with the given bytes.
pub fn to_value(bytes: &[u8]) -> (r: Value)
    ensures
        r@ == bytes@,
{
    let mut value: Value = Vec::new();
    value.extend_from_slice(bytes);
    assert(value@ =~= bytes@);
    value
}

/// The bytes of several values.
pub open spec fn bytes_of(values: Seq<Value>) -> Seq<Seq<u8>> {
    values.map_values(|v: Value| v@)
}

/// The wires from `first` to `last`, both ends taken in.
pub open spec fn id_range(first: u64, last: u64) -> Seq<u64> {
    if last < first {
        Seq::empty()
    } else {
        Seq::new((last - first + 1) as nat, |i: int| (first + i) as u64)
    }
}

pub open spec fn bad_range_text(first: u64, last: u64) -> Seq<char> {
    "In WireRange, last WireId ("@ + decimal(last as nat)
        + ") must be strictly greater than first WireId ("@ + decimal(first as nat) + ")."@
}

/// The wires of a list in order; refused at its first range whose last wire
/// does not come after its first one.
pub open spec fn expanded(list: Seq<WireListElement>) -> Result<Seq<u64>, Seq<char>>
    decreases list.len(),
{
    if list.len() == 0 {
        Ok(Seq::empty())
    } else {
        match list[0] {
            WireListElement::Wire(id) => join(seq![id], expanded(list.drop_first())),
            WireListElement::WireRange(first, last) => if last <= first {
                Err(bad_range_text(first, last))
            } else {
                join(id_range(first, last), expanded(list.drop_first()))
            },
        }
    }
}

/// Puts wires in front of a list that may have been refused.
pub open spec fn join(front: Seq<u64>, back: Result<Seq<u64>, Seq<char>>) -> Result<
    Seq<u64>,
    Seq<char>,
> {
    match back {
        Ok(ids) => Ok(front + ids),
        Err(text) => Err(text),
    }
}

/// Whether an executable result is the given one, an error being known by its words.
pub open spec fn same_ids(r: Result<Vec<u64>, Error>, ids: Result<Seq<u64>, Seq<char>>) -> bool {
    match r {
        Ok(v) => ids == Ok::<Seq<u64>, Seq<char>>(v@),
        Err(e) => ids == Err::<Seq<u64>, Seq<char>>(e@),
    }
}

fn bad_range(first: u64, last: u64) -> (e: Error)
    ensures
        e@ == bad_range_text(first, last),
{
    let mut message = "In WireRange, last WireId (".to_owned();
    message.append(decimal_text(last).as_str());
    message.append(") must be strictly greater than first WireId (");
    message.append(decimal_text(first).as_str());
    message.append(").");
    Error { message }
}

/// Appends the wires from `first` to `last`, both ends taken in.
pub(crate) fn push_range(ids: &mut Vec<WireId>, first: WireId, last: WireId)
    ensures
        final(ids)@ == old(ids)@ + id_range(first, last),
{
    if first <= last {
        let mut current: u64 = first;
        while current < last
            invariant
                first <= current <= last,
                ids@ =~= old(ids)@ + Seq::new((current - first) as nat, |i: int| (first + i) as u64),
            decreases last - current,
        {
            ids.push(current);
            current = current + 1;
        }
        ids.push(last);
    }
    assert(ids@ =~= old(ids)@ + id_range(first, last));
}

/// Lists the wires of a `WireList` one by one.
pub fn expand_wirelist(wirelist: &WireList) -> (r: Result<Vec<WireId>, Error>)
    ensures
        same_ids(r, expanded(wirelist@)),
{
    let mut ids: Vec<WireId> = Vec::new();
    let mut k: usize = 0;
    assert(wirelist@.skip(0) =~= wirelist@);
    assert(expanded(wirelist@) == join(ids@, expanded(wirelist@))) by {
        if expanded(wirelist@) is Ok {
            assert(ids@ + expanded(wirelist@)->Ok_0 =~= expanded(wirelist@)->Ok_0);
        }
    }
    while k < wirelist.len()
        invariant
            k <= wirelist@.len(),
            expanded(wirelist@) == join(ids@, expanded(wirelist@.skip(k as int))),
        decreases wirelist@.len() - k,
    {
        let ghost rest = expanded(wirelist@.skip(k as int + 1));
        let ghost before = ids@;
        assert(wirelist@.skip(k as int).drop_first() =~= wirelist@.skip(k as int + 1));
        match wirelist[k] {
            WireListElement::Wire(id) => {
                ids.push(id);
                proof {
                    if rest is Ok {
                        assert(before + (seq![id] + rest->Ok_0) =~= ids@ + rest->Ok_0);
                    }
                }
            },
            WireListElement::WireRange(first, last) => {
                if last <= first {
                    return Err(bad_range(first, last));
                }
                push_range(&mut ids, first, last);
                proof {
                    if rest is Ok {
                        assert(before + (id_range(first, last) + rest->Ok_0) =~= ids@
                            + rest->Ok_0);
                    }
                }
            },
        }
        k = k + 1;
    }
    assert(wirelist@.skip(k as int) =~= Seq::empty());
    assert(ids@ + Seq::<u64>::empty() =~= ids@);
    Ok(ids)
}

} // verus!
