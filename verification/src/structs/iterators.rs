//! Loop iterators, and the wire numbers computed from them.

use crate::error::Error;
use crate::structs::wire::{id_range, join, push_range, same_ids, WireId};
use vstd::prelude::*;
use vstd::string::*;

verus! {

/// A wire number as an expression over loop iterators.
#[derive(Debug, PartialEq, Eq, Hash)]
pub enum IterExprWireNumber {
    Const(u64),
    Iterator(String),
    Add(Box<IterExprWireNumber>, Box<IterExprWireNumber>),
    Sub(Box<IterExprWireNumber>, Box<IterExprWireNumber>),
    Mul(Box<IterExprWireNumber>, Box<IterExprWireNumber>),
    DivConst(Box<IterExprWireNumber>, u64),
}

/// One computed wire, or all the wires from a first to a last one.
#[derive(Debug, PartialEq, Eq, Hash)]
pub enum IterExprListElement {
    Single(IterExprWireNumber),
    Range(IterExprWireNumber, IterExprWireNumber),
}

pub type IterExprList = Vec<IterExprListElement>;

/// The iterators that are running, each with its present value.
#[derive(Debug)]
pub struct IteratorTable {
    entries: Vec<(String, u64)>,
}

/// The values in a list of named values without repeated names.
pub open spec fn named_values(entries: Seq<(String, u64)>) -> Map<Seq<char>, u64>
    decreases entries.len(),
{
    if entries.len() == 0 {
        Map::empty()
    } else {
        named_values(entries.drop_last()).insert(entries.last().0@, entries.last().1)
    }
}

pub open spec fn distinct_names(entries: Seq<(String, u64)>) -> bool {
    forall|i: int, j: int|
        0 <= i < j < entries.len() ==> (#[trigger] entries[i]).0@ != (#[trigger] entries[j]).0@
}

/// A name has a value just if it is listed.
proof fn lemma_named_values(entries: Seq<(String, u64)>)
    requires
        distinct_names(entries),
    ensures
        forall|i: int|
            0 <= i < entries.len() ==> named_values(entries).contains_key(
                (#[trigger] entries[i]).0@,
            ) && named_values(entries)[entries[i].0@] == entries[i].1,
        forall|name: Seq<char>| #[trigger]
            named_values(entries).contains_key(name) ==> exists|i: int|
                0 <= i < entries.len() && (#[trigger] entries[i]).0@ == name,
    decreases entries.len(),
{
    if entries.len() > 0 {
        let shorter = entries.drop_last();
        lemma_named_values(shorter);
        assert forall|i: int| 0 <= i < entries.len() implies named_values(entries).contains_key(
            (#[trigger] entries[i]).0@,
        ) && named_values(entries)[entries[i].0@] == entries[i].1 by {
            if i < entries.len() - 1 {
                assert(shorter[i] == entries[i]);
            }
        }
        assert forall|name: Seq<char>| #[trigger]
            named_values(entries).contains_key(name) implies exists|i: int|
            0 <= i < entries.len() && (#[trigger] entries[i]).0@ == name by {
            if name == entries.last().0@ {
                assert(entries[entries.len() - 1].0@ == name);
            } else {
                assert(named_values(shorter).contains_key(name));
                let i = choose|i: int|
                    0 <= i < shorter.len() && (#[trigger] shorter[i]).0@ == name;
                assert(shorter[i] == entries[i]);
            }
        }
    }
}

impl View for IteratorTable {
    type V = Map<Seq<char>, u64>;

    closed spec fn view(&self) -> Map<Seq<char>, u64> {
        named_values(self.entries@)
    }
}

impl IteratorTable {
    #[verifier::type_invariant]
    spec fn wf(self) -> bool {
        distinct_names(self.entries@)
    }

    /// No iterators.
    pub fn new() -> (r: Self)
        ensures
            r@ == Map::<Seq<char>, u64>::empty(),
    {
        IteratorTable { entries: Vec::new() }
    }

    fn position(&self, name: &String) -> (r: Option<usize>)
        ensures
            match r {
                Some(i) => i < self.entries@.len() && self.entries@[i as int].0@ == name@,
                None => forall|i: int|
                    0 <= i < self.entries@.len() ==> (#[trigger] self.entries@[i]).0@ != name@,
            },
    {
        let mut i: usize = 0;
        while i < self.entries.len()
            invariant
                i <= self.entries@.len(),
                forall|j: int| 0 <= j < i ==> (#[trigger] self.entries@[j]).0@ != name@,
            decreases self.entries@.len() - i,
        {
            if self.entries[i].0 == *name {
                return Some(i);
            }
            i = i + 1;
        }
        None
    }

    /// The value of a running iterator.
    pub fn get(&self, name: &String) -> (r: Option<u64>)
        ensures
            r == (if self@.contains_key(name@) {
                Some(self@[name@])
            } else {
                None
            }),
    {
        proof {
            use_type_invariant(self);
            lemma_named_values(self.entries@);
        }
        match self.position(name) {
            Some(i) => Some(self.entries[i].1),
            None => None,
        }
    }

    /// Ends an iterator; one that is not running is left so.
    pub fn remove(&mut self, name: &String)
        ensures
            final(self)@ == old(self)@.remove(name@),
    {
        proof {
            use_type_invariant(&*self);
            lemma_named_values(self.entries@);
        }
        let ghost before = self.entries@;
        let found = self.position(name);
        let mut entries: Vec<(String, u64)> = Vec::new();
        std::mem::swap(&mut entries, &mut self.entries);
        if let Some(i) = found {
            let _ = entries.remove(i);
            proof {
                let after = entries@;
                assert forall|a: int, b: int| 0 <= a < b < after.len() implies (
                #[trigger] after[a]).0@ != (#[trigger] after[b]).0@ by {
                    let a0 = if a < i { a } else { a + 1 };
                    let b0 = if b < i { b } else { b + 1 };
                    assert(after[a] == before[a0]);
                    assert(after[b] == before[b0]);
                }
                lemma_named_values(after);
                assert forall|key: Seq<char>|
                    named_values(after).contains_key(key) == named_values(before).remove(
                        name@,
                    ).contains_key(key) by {
                    if named_values(after).contains_key(key) {
                        let a = choose|a: int|
                            0 <= a < after.len() && (#[trigger] after[a]).0@ == key;
                        let a0 = if a < i { a } else { a + 1 };
                        assert(after[a] == before[a0]);
                        assert(before[i as int].0@ != before[a0].0@);
                    }
                    if key != name@ && named_values(before).contains_key(key) {
                        let a0 = choose|a: int|
                            0 <= a < before.len() && (#[trigger] before[a]).0@ == key;
                        let a = if a0 < i { a0 } else { a0 - 1 };
                        assert(after[a] == before[a0]);
                    }
                }
                assert forall|key: Seq<char>| #[trigger]
                    named_values(after).contains_key(key) implies named_values(after)[key]
                    == named_values(before).remove(name@)[key] by {
                    let a = choose|a: int| 0 <= a < after.len() && (#[trigger] after[a]).0@ == key;
                    let a0 = if a < i { a } else { a + 1 };
                    assert(after[a] == before[a0]);
                }
                assert(named_values(after) =~= named_values(before).remove(name@));
            }
        } else {
            assert(!named_values(before).contains_key(name@));
            assert(named_values(before) =~= named_values(before).remove(name@));
        }
        self.entries = entries;
    }

    /// Starts an iterator, or gives it its next value.
    pub fn insert(&mut self, name: &String, value: u64)
        ensures
            final(self)@ == old(self)@.insert(name@, value),
    {
        self.remove(name);
        proof {
            use_type_invariant(&*self);
            lemma_named_values(self.entries@);
        }
        let ghost before = self.entries@;
        let mut entries: Vec<(String, u64)> = Vec::new();
        std::mem::swap(&mut entries, &mut self.entries);
        entries.push((name.clone(), value));
        proof {
            assert(entries@.drop_last() =~= before);
            assert forall|a: int, b: int| 0 <= a < b < entries@.len() implies (
            #[trigger] entries@[a]).0@ != (#[trigger] entries@[b]).0@ by {
                assert(entries@[a] == before[a]);
                if b < before.len() {
                    assert(entries@[b] == before[b]);
                } else {
                    assert(named_values(before).contains_key(before[a].0@));
                }
            }
            assert(old(self)@.remove(name@).insert(name@, value) =~= old(self)@.insert(
                name@,
                value,
            ));
        }
        self.entries = entries;
    }
}

pub open spec fn unknown_iterator_text(name: Seq<char>) -> Seq<char> {
    "Unknown iterator "@ + name
}

pub open spec fn iterexpr_range_text() -> Seq<char> {
    "Iterator expression out of range"@
}

/// A number that has to fit in a wire number.
pub open spec fn in_range(n: int) -> Result<u64, Seq<char>> {
    if 0 <= n <= u64::MAX {
        Ok(n as u64)
    } else {
        Err(iterexpr_range_text())
    }
}

/// The value of an iterator expression; refused where it names an iterator that
/// is not running, divides by zero or leaves the range of wire numbers.
pub open spec fn iterexpr_value(e: IterExprWireNumber, iterators: Map<Seq<char>, u64>) -> Result<
    u64,
    Seq<char>,
>
    decreases e,
{
    match e {
        IterExprWireNumber::Const(n) => Ok(n),
        IterExprWireNumber::Iterator(name) => if iterators.contains_key(name@) {
            Ok(iterators[name@])
        } else {
            Err(unknown_iterator_text(name@))
        },
        IterExprWireNumber::Add(a, b) => match iterexpr_value(*a, iterators) {
            Err(t) => Err(t),
            Ok(x) => match iterexpr_value(*b, iterators) {
                Err(t) => Err(t),
                Ok(y) => in_range(x + y),
            },
        },
        IterExprWireNumber::Sub(a, b) => match iterexpr_value(*a, iterators) {
            Err(t) => Err(t),
            Ok(x) => match iterexpr_value(*b, iterators) {
                Err(t) => Err(t),
                Ok(y) => in_range(x - y),
            },
        },
        IterExprWireNumber::Mul(a, b) => match iterexpr_value(*a, iterators) {
            Err(t) => Err(t),
            Ok(x) => match iterexpr_value(*b, iterators) {
                Err(t) => Err(t),
                Ok(y) => in_range(x * y),
            },
        },
        IterExprWireNumber::DivConst(a, d) => match iterexpr_value(*a, iterators) {
            Err(t) => Err(t),
            Ok(x) => if d == 0 {
                Err(iterexpr_range_text())
            } else {
                Ok((x / d) as u64)
            },
        },
    }
}

/// The wires that one element of a list stands for.
pub open spec fn iterexpr_ids(e: IterExprListElement, iterators: Map<Seq<char>, u64>) -> Result<
    Seq<u64>,
    Seq<char>,
> {
    match e {
        IterExprListElement::Single(x) => match iterexpr_value(x, iterators) {
            Err(t) => Err(t),
            Ok(id) => Ok(seq![id]),
        },
        IterExprListElement::Range(x, y) => match iterexpr_value(x, iterators) {
            Err(t) => Err(t),
            Ok(first) => match iterexpr_value(y, iterators) {
                Err(t) => Err(t),
                Ok(last) => Ok(id_range(first, last)),
            },
        },
    }
}

/// The wires that a list stands for, in order.
pub open spec fn evaluated(
    list: Seq<IterExprListElement>,
    iterators: Map<Seq<char>, u64>,
) -> Result<Seq<u64>, Seq<char>>
    decreases list.len(),
{
    if list.len() == 0 {
        Ok(Seq::empty())
    } else {
        match iterexpr_ids(list[0], iterators) {
            Err(t) => Err(t),
            Ok(ids) => join(ids, evaluated(list.drop_first(), iterators)),
        }
    }
}

pub open spec fn same_number(r: Result<u64, Error>, n: Result<u64, Seq<char>>) -> bool {
    match r {
        Ok(v) => n == Ok::<u64, Seq<char>>(v),
        Err(e) => n == Err::<u64, Seq<char>>(e@),
    }
}

/// Computes the value of an iterator expression.
pub fn evaluate_iterexpr(e: &IterExprWireNumber, iterators: &IteratorTable) -> (r: Result<
    u64,
    Error,
>)
    ensures
        same_number(r, iterexpr_value(*e, iterators@)),
    decreases e,
{
    match e {
        IterExprWireNumber::Const(n) => Ok(*n),
        IterExprWireNumber::Iterator(name) => match iterators.get(name) {
            Some(n) => Ok(n),
            None => {
                let mut message = "Unknown iterator ".to_owned();
                message.append(name.as_str());
                Err(Error { message })
            },
        },
        IterExprWireNumber::Add(a, b) => {
            let x = evaluate_iterexpr(a, iterators)?;
            let y = evaluate_iterexpr(b, iterators)?;
            match x.checked_add(y) {
                Some(n) => Ok(n),
                None => Err(Error::new("Iterator expression out of range")),
            }
        },
        IterExprWireNumber::Sub(a, b) => {
            let x = evaluate_iterexpr(a, iterators)?;
            let y = evaluate_iterexpr(b, iterators)?;
            match x.checked_sub(y) {
                Some(n) => Ok(n),
                None => Err(Error::new("Iterator expression out of range")),
            }
        },
        IterExprWireNumber::Mul(a, b) => {
            let x = evaluate_iterexpr(a, iterators)?;
            let y = evaluate_iterexpr(b, iterators)?;
            proof {
                assert(x * y >= 0) by (nonlinear_arith);
            }
            match x.checked_mul(y) {
                Some(n) => Ok(n),
                None => Err(Error::new("Iterator expression out of range")),
            }
        },
        IterExprWireNumber::DivConst(a, d) => {
            let x = evaluate_iterexpr(a, iterators)?;
            if *d == 0 {
                Err(Error::new("Iterator expression out of range"))
            } else {
                Ok(x / *d)
            }
        },
    }
}

/// Lists the wires that a list of iterator expressions stands for.
pub fn evaluate_iterexpr_list(list: &IterExprList, iterators: &IteratorTable) -> (r: Result<
    Vec<WireId>,
    Error,
>)
    ensures
        same_ids(r, evaluated(list@, iterators@)),
{
    let mut ids: Vec<WireId> = Vec::new();
    let mut k: usize = 0;
    assert(list@.skip(0) =~= list@);
    assert(evaluated(list@, iterators@) == join(ids@, evaluated(list@, iterators@))) by {
        if evaluated(list@, iterators@) is Ok {
            assert(ids@ + evaluated(list@, iterators@)->Ok_0 =~= evaluated(
                list@,
                iterators@,
            )->Ok_0);
        }
    }
    while k < list.len()
        invariant
            k <= list@.len(),
            evaluated(list@, iterators@) == join(ids@, evaluated(list@.skip(k as int), iterators@)),
        decreases list@.len() - k,
    {
        let ghost rest = evaluated(list@.skip(k as int + 1), iterators@);
        let ghost before = ids@;
        assert(list@.skip(k as int).drop_first() =~= list@.skip(k as int + 1));
        match &list[k] {
            IterExprListElement::Single(e) => {
                let id = evaluate_iterexpr(e, iterators)?;
                ids.push(id);
                proof {
                    if rest is Ok {
                        assert(before + (seq![id] + rest->Ok_0) =~= ids@ + rest->Ok_0);
                    }
                }
            },
            IterExprListElement::Range(x, y) => {
                let first = evaluate_iterexpr(x, iterators)?;
                let last = evaluate_iterexpr(y, iterators)?;
                push_range(&mut ids, first, last);
                proof {
                    if rest is Ok {
                        assert(before + (id_range(first, last) + rest->Ok_0) =~= ids@
                            + rest->Ok_0);
                    }
                }
            },
        }
        k = k + 1;
    }
    assert(list@.skip(k as int) =~= Seq::empty());
    assert(ids@ + Seq::<u64>::empty() =~= ids@);
    Ok(ids)
}

} // verus!
