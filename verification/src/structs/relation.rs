//! Circuits.

use crate::structs::function::Function;
use crate::structs::gate::{gates_of, Gate, GateV};
use crate::structs::header::{Header, HeaderV};
use vstd::prelude::*;

verus! {

/// No feature beyond plain gates.
pub const SIMPLE: u16 = 0;

pub const FUNCTION: u16 = 0x1;

pub const FOR: u16 = 0x2;

pub const SWITCH: u16 = 0x4;

/// The gates of arithmetic circuits: add, add constant, multiply, multiply by
/// a constant.
pub const ARITH: u16 = 0xf;

/// The gates of Boolean circuits: xor, and, not.
pub const BOOL: u16 = 0x700;

/// A circuit: the functions that it defines and the gates to run.
#[derive(Clone, Debug, PartialEq, Eq, Hash)]
pub struct Relation {
    pub header: Header,
    pub gate_mask: u16,
    pub feat_mask: u16,
    pub functions: Vec<Function>,
    pub gates: Vec<Gate>,
}

/// A circuit as a mathematical value.
pub struct RelationV {
    pub header: HeaderV,
    pub gate_mask: u16,
    pub feat_mask: u16,
    pub functions: Seq<Function>,
    pub gates: Seq<GateV>,
}

impl View for Relation {
    type V = RelationV;

    open spec fn view(&self) -> RelationV {
        RelationV {
            header: self.header@,
            gate_mask: self.gate_mask,
            feat_mask: self.feat_mask,
            functions: self.functions@,
            gates: gates_of(self.gates@),
        }
    }
}

/// Whether a set of features holds all those of another one.
pub fn contains_feature(feature_set: u16, feature: u16) -> (r: bool)
    ensures
        r == (feature_set & feature == feature),
        r == (feature_set | feature == feature_set),
        forall|one: u16| r && feature & one == one ==> #[trigger] (feature_set & one) == one,
{
    assert((feature_set & feature == feature) == (feature_set | feature == feature_set))
        by (bit_vector);
    assert(forall|one: u16|
        feature_set & feature == feature && feature & one == one ==> #[trigger] (feature_set & one)
            == one) by (bit_vector);
    (feature_set & feature) == feature
}

} // verus!
