//! How many bytes objects take up in a FlatBuffer. Objects are written from the end of the
//! buffer to its front, so that each one is aligned by its distance from the end.

use crate::flat::model::MAX_FIELDS;
use vstd::prelude::*;

verus! {

/// What a table says of its fields: how long it is, and how far from its beginning each
/// field lies. Tables that say the same share it.
#[verifier::ext_equal]
pub struct Vtable {
    pub size: nat,
    pub offsets: Seq<Option<nat>>,
}

/// How far a buffer has grown.
#[verifier::ext_equal]
pub struct Layout {
    /// How many bytes it has.
    pub used: nat,
    /// What the whole buffer has to be aligned to.
    pub alignment: nat,
    /// What tables have said of their fields.
    pub vtables: Set<Vtable>,
}

/// What no tables say of their fields.
pub open spec fn no_vtables() -> Set<Vtable> {
    Set::empty()
}

/// The layout of a buffer without bytes.
pub open spec fn blank() -> Layout {
    Layout { used: 0, alignment: 0, vtables: no_vtables() }
}

/// A length, rounded up to a multiple of another one.
pub open spec fn rounded(n: nat, unit: nat) -> nat {
    (n + (unit - n % unit) % (unit as int)) as nat
}

pub open spec fn larger_of(a: nat, b: nat) -> nat {
    if a >= b {
        a
    } else {
        b
    }
}

/// Where the fields of a table lie that has none: the distance from the end of the buffer,
/// for each field.
pub open spec fn no_slots() -> Seq<Option<nat>> {
    Seq::new(MAX_FIELDS as nat, |i: int| None)
}

/// How many fields there are up to the last one that is written.
pub open spec fn field_count(slots: Seq<Option<nat>>) -> nat
    decreases slots.len(),
{
    if slots.len() == 0 {
        0
    } else if slots.last() is Some {
        slots.len()
    } else {
        field_count(slots.drop_last())
    }
}

/// What a table says of its fields, where its beginning lies at `body`.
pub open spec fn vtable_of(start: nat, slots: Seq<Option<nat>>, body: nat) -> Vtable {
    Vtable {
        size: (body - start) as nat,
        offsets: Seq::new(
            slots.len(),
            |i: int|
                match slots[i] {
                    Some(p) => Some((body - p) as nat),
                    None => None,
                },
        ),
    }
}

impl Layout {
    /// With one more number of so many bytes, which is aligned to its own length.
    pub open spec fn with_item(self, size: nat) -> Layout {
        Layout {
            used: rounded(self.used + size, size),
            alignment: larger_of(self.alignment, size),
            ..self
        }
    }

    /// With a vector of so many bytes, after a length of 4 bytes. Both are aligned to 4.
    pub open spec fn with_vector(self, bytes: nat) -> Layout {
        Layout {
            used: rounded(self.used + bytes, 4) + 4,
            alignment: larger_of(self.alignment, 4),
            ..self
        }
    }

    /// With the end of a table that started at `start` and has its fields in these places:
    /// a distance of 4 bytes, and what the table says of its fields, unless one has said
    /// the same before. That takes two bytes for its own length, two for that of the table,
    /// and two for each field up to the last one.
    pub open spec fn with_table(self, start: nat, slots: Seq<Option<nat>>) -> Layout {
        let body = self.with_item(4);
        let vtable = vtable_of(start, slots, body.used);
        Layout {
            used: if self.vtables.contains(vtable) {
                body.used
            } else {
                body.used + 4 + 2 * field_count(slots)
            },
            vtables: self.vtables.insert(vtable),
            ..body
        }
    }

    /// How many bytes the end of a table takes up for a moment, as what it says of its fields
    /// is written before it is found that a table has said the same.
    pub open spec fn crest(self, slots: Seq<Option<nat>>) -> nat {
        self.with_item(4).used + 4 + 2 * field_count(slots)
    }

    /// How many bytes a finished buffer has: also the reference to its root, its length,
    /// and its identifier if it has one, aligned like all that it holds.
    pub open spec fn finished(self, identified: bool) -> nat {
        rounded(
            self.used + (if identified {
                12nat
            } else {
                8nat
            }),
            self.alignment,
        )
    }
}

proof fn lemma_field_count(slots: Seq<Option<nat>>)
    ensures
        field_count(slots) <= slots.len(),
    decreases slots.len(),
{
    if slots.len() > 0 {
        lemma_field_count(slots.drop_last());
    }
}

/// How many fields there are where the last one that is written is known.
pub proof fn lemma_last_field(slots: Seq<Option<nat>>, count: nat)
    requires
        count <= slots.len(),
        count > 0 ==> slots[count - 1] is Some,
        forall|i: int| count <= i < slots.len() ==> #[trigger] slots[i] is None,
    ensures
        field_count(slots) == count,
    decreases slots.len(),
{
    if slots.len() > count {
        assert(slots[slots.len() - 1] is None);
        lemma_last_field(slots.drop_last(), count);
    }
}

/// The end of a table takes up at most 7 bytes, and what the table says of its fields.
pub proof fn lemma_table_cost(l: Layout, start: nat, slots: Seq<Option<nat>>)
    ensures
        l.used + 4 <= l.with_table(start, slots).used <= l.crest(slots),
        l.crest(slots) <= l.used + 11 + 2 * slots.len(),
{
    lemma_field_count(slots);
}

} // verus!
