//! The messages that statements are sent in.

use crate::structs::instance::Instance;
use crate::structs::relation::Relation;
use crate::structs::witness::Witness;
use vstd::prelude::*;

verus! {

#[derive(Clone, Debug, PartialEq, Eq, Hash)]
pub enum Message {
    Instance(Instance),
    Witness(Witness),
    Relation(Relation),
}

} // verus!
