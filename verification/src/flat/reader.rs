//! The reading of FlatBuffers. Whatever a message refers to outside of its bytes
//! counts as missing.

use crate::flat::model::{bytes_at, field_at, number_at, target_at};
use crate::number::le_value;
use crate::structs::wire::Value;
use vstd::prelude::*;

verus! {

proof fn lemma_two(b: Seq<u8>, p: int)
    requires
        0 <= p,
        p + 2 <= b.len(),
    ensures
        number_at(b, p, 2) == b[p] + 256 * b[p + 1],
{
    reveal_with_fuel(le_value, 3);
    let s = b.subrange(p, p + 2);
    assert(s.drop_first().drop_first() =~= Seq::empty());
    assert(s.drop_first()[0] == b[p + 1]);
}

proof fn lemma_split(b: Seq<u8>, p: int, n: int)
    requires
        0 <= p,
        2 <= n,
        p + n <= b.len(),
    ensures
        number_at(b, p, n) == number_at(b, p, 2) + 0x1_0000 * number_at(b, p + 2, n - 2),
{
    reveal_with_fuel(le_value, 3);
    let s = b.subrange(p, p + n);
    assert(s.drop_first().drop_first() =~= b.subrange(p + 2, p + n));
    let t = b.subrange(p, p + 2);
    assert(t.drop_first().drop_first() =~= Seq::empty());
    assert(s.drop_first()[0] == t.drop_first()[0]);
}

/// The number of 2 bytes at a position.
pub fn read_two(b: &[u8], p: usize) -> (r: u16)
    requires
        p + 2 <= b.len(),
    ensures
        r == number_at(b@, p as int, 2),
{
    proof {
        lemma_two(b@, p as int);
    }
    b[p] as u16 + 256 * (b[p + 1] as u16)
}

/// The number of 4 bytes at a position.
pub fn read_four(b: &[u8], p: usize) -> (r: u32)
    requires
        p + 4 <= b.len(),
    ensures
        r == number_at(b@, p as int, 4),
{
    proof {
        lemma_split(b@, p as int, 4);
    }
    read_two(b, p) as u32 + 0x1_0000 * (read_two(b, p + 2) as u32)
}

/// The number of 8 bytes at a position.
pub fn read_eight(b: &[u8], p: usize) -> (r: u64)
    requires
        p + 8 <= b.len(),
    ensures
        r == number_at(b@, p as int, 8),
{
    proof {
        lemma_split(b@, p as int, 4);
        lemma_split(b@, p as int, 8);
        lemma_split(b@, p + 2, 6);
    }
    read_four(b, p) as u64 + 0x1_0000_0000 * (read_four(b, p + 4) as u64)
}

/// A position that may be missing.
pub open spec fn place(p: Option<usize>) -> Option<int> {
    match p {
        Some(p) => Some(p as int),
        None => None,
    }
}

/// Where the field of a table with an index lies.
pub fn find_field(b: &[u8], table: usize, index: usize) -> (r: Option<usize>)
    requires
        index < 0x4000,
    ensures
        place(r) == field_at(b@, table as int, index as int),
{
    if b.len() < 4 || table > b.len() - 4 {
        return None;
    }
    let n: u32 = read_four(b, table);
    let vtable: usize = if n < 0x8000_0000 {
        if n as usize > table {
            return None;
        }
        table - n as usize
    } else {
        let back: u32 = 0xffff_ffff - n + 1;
        if back as usize > b.len() - table {
            return None;
        }
        table + back as usize
    };
    let slot: usize = 4 + 2 * index;
    if b.len() < 2 || vtable > b.len() - 2 {
        return None;
    }
    if slot >= read_two(b, vtable) as usize {
        return None;
    }
    if slot > b.len() - 2 || vtable > b.len() - 2 - slot {
        return None;
    }
    let distance: u16 = read_two(b, vtable + slot);
    if distance == 0 || distance as usize >= b.len() - table {
        None
    } else {
        Some(table + distance as usize)
    }
}

/// Where the object lies that a position refers to.
pub fn find_target(b: &[u8], p: usize) -> (r: Option<usize>)
    ensures
        place(r) == target_at(b@, p as int),
{
    if b.len() < 4 || p > b.len() - 4 {
        return None;
    }
    let distance: usize = read_four(b, p) as usize;
    if distance >= b.len() - p {
        None
    } else {
        Some(p + distance)
    }
}

/// The vector of bytes at a position.
pub fn read_bytes(b: &[u8], p: usize) -> (r: Option<Value>)
    ensures
        bytes_at(b@, p as int) == (match r {
            Some(v) => Some(v@),
            None => None,
        }),
{
    if b.len() < 4 || p > b.len() - 4 {
        return None;
    }
    let len: usize = read_four(b, p) as usize;
    let start: usize = p + 4;
    if len > b.len() - start {
        return None;
    }
    let mut value: Value = Vec::new();
    let mut k: usize = 0;
    while k < len
        invariant
            k <= len,
            start + len <= b@.len(),
            b@.len() <= usize::MAX,
            value@ =~= b@.subrange(start as int, start + k),
        decreases len - k,
    {
        value.push(b[start + k]);
        k = k + 1;
    }
    Some(value)
}

/// The object that a field of a table refers to.
pub open spec fn child_at(b: Seq<u8>, table: int, index: int) -> Option<int> {
    match field_at(b, table, index) {
        None => None,
        Some(p) => target_at(b, p),
    }
}

/// Where the object lies that a field of a table refers to.
pub fn find_child(b: &[u8], table: usize, index: usize) -> (r: Option<usize>)
    requires
        index < 0x4000,
    ensures
        place(r) == child_at(b@, table as int, index as int),
{
    match find_field(b, table, index) {
        None => None,
        Some(p) => find_target(b, p),
    }
}

/// The number of 8 bytes in a field of a table.
pub open spec fn long_at(b: Seq<u8>, table: int, index: int) -> Option<u64> {
    match field_at(b, table, index) {
        None => None,
        Some(p) => if p + 8 > b.len() {
            None
        } else {
            Some(number_at(b, p, 8) as u64)
        },
    }
}

/// The number of 8 bytes in a field of a table.
pub fn read_long(b: &[u8], table: usize, index: usize) -> (r: Option<u64>)
    requires
        index < 0x4000,
    ensures
        r == long_at(b@, table as int, index as int),
{
    match find_field(b, table, index) {
        None => None,
        Some(p) => if b.len() < 8 || p > b.len() - 8 {
            None
        } else {
            Some(read_eight(b, p))
        },
    }
}

/// The byte in a field of a table, zero if it is left out.
pub open spec fn byte_at(b: Seq<u8>, table: int, index: int) -> u8 {
    match field_at(b, table, index) {
        None => 0,
        Some(p) => b[p],
    }
}

/// The byte in a field of a table.
pub fn read_byte(b: &[u8], table: usize, index: usize) -> (r: u8)
    requires
        index < 0x4000,
    ensures
        r == byte_at(b@, table as int, index as int),
{
    match find_field(b, table, index) {
        None => 0,
        Some(p) => b[p],
    }
}

/// The number of 4 bytes in a field of a table, zero if it is left out.
pub open spec fn word_at(b: Seq<u8>, table: int, index: int) -> u32 {
    match field_at(b, table, index) {
        None => 0,
        Some(p) => if p + 4 > b.len() {
            0
        } else {
            number_at(b, p, 4) as u32
        },
    }
}

/// The number of 4 bytes in a field of a table.
pub fn read_word(b: &[u8], table: usize, index: usize) -> (r: u32)
    requires
        index < 0x4000,
    ensures
        r == word_at(b@, table as int, index as int),
{
    match find_field(b, table, index) {
        None => 0,
        Some(p) => if b.len() < 4 || p > b.len() - 4 {
            0
        } else {
            read_four(b, p)
        },
    }
}

/// The bytes that a field of a table refers to.
pub open spec fn value_at(b: Seq<u8>, table: int, index: int) -> Option<Seq<u8>> {
    match child_at(b, table, index) {
        None => None,
        Some(p) => bytes_at(b, p),
    }
}

/// The bytes that a field of a table refers to.
pub fn read_value(b: &[u8], table: usize, index: usize) -> (r: Option<Value>)
    requires
        index < 0x4000,
    ensures
        value_at(b@, table as int, index as int) == (match r {
            Some(v) => Some(v@),
            None => None,
        }),
{
    match find_child(b, table, index) {
        None => None,
        Some(p) => read_bytes(b, p),
    }
}

/// How many references a vector of references has, if all of them are there.
pub open spec fn count_at(b: Seq<u8>, p: int) -> Option<nat> {
    if p < 0 || p + 4 > b.len() || p + 4 + 4 * number_at(b, p, 4) > b.len() {
        None
    } else {
        Some(number_at(b, p, 4))
    }
}

/// How many references a vector of references has.
pub fn read_count(b: &[u8], p: usize) -> (r: Option<usize>)
    ensures
        count_at(b@, p as int) == (match r {
            Some(n) => Some(n as nat),
            None => None,
        }),
        r matches Some(n) ==> p + 4 + 4 * n <= b.len(),
{
    if b.len() < 4 || p > b.len() - 4 {
        return None;
    }
    let n: usize = read_four(b, p) as usize;
    if n > (b.len() - 4 - p) / 4 {
        None
    } else {
        Some(n)
    }
}

} // verus!
