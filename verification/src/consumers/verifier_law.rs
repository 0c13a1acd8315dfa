//! Writing a statement as a constraint system does not depend on the witness.

use crate::consumers::backend::{Answer, BackendState, Request, ZKBackend};
use crate::consumers::coupling::{
    coupled, paired, public_part, public_part_is_accepted, Relating,
};
use crate::consumers::r1cs_builder::{empty_r1cs, Given, R1csV};
use crate::consumers::semantics::{fresh, with_messages};
use crate::consumers::to_r1cs::{
    converter_after, converter_answer, converter_state, system_of, written, ToR1CSConverter,
};
use crate::structs::message::Message;
use crate::structs::r1cs::{ConstraintV, VariablesV};
use vstd::prelude::*;

verus! {

/// A constraint system without what is private.
pub open spec fn public_system(v: R1csV) -> R1csV {
    R1csV { use_witness: false, privates: Seq::empty(), assignment: Map::empty(), ..v }
}

/// Whether a converter that knows all values and one that knows none have written the
/// same.
#[verifier::opaque]
pub open spec fn same_but_private(use_correction: bool, s1: BackendState, s2: BackendState) -> bool {
    &&& s1 == converter_state(true, true, use_correction, s1.requests)
    &&& s2 == converter_state(true, false, use_correction, s2.requests)
    &&& system_of(s1).use_witness
    &&& system_of(s2) == public_system(system_of(s1))
}

/// The relation between such converters.
spec fn private_apart(use_correction: bool) -> Relating {
    |s1: BackendState, s2: BackendState| same_but_private(use_correction, s1, s2)
}

/// Whether a step that succeeds with all values known succeeds with none known.
spec fn same_step(a: Given, b: Given) -> bool {
    a.1 is Ok ==> a.0.use_witness && b.1 == a.1 && b.0 == public_system(a.0)
}

/// The variables of a result are the same with all values known and with none known.
proof fn lemma_same_result(v: R1csV, total: Answer, other: Answer)
    requires
        v.use_witness,
        v.result_of(total).1 is Ok,
    ensures
        v.result_of(total).0.use_witness,
        public_system(v).result_of(other).1 == v.result_of(total).1,
        public_system(v).result_of(other).0 == public_system(v.result_of(total).0),
{
    let a = v.result_of(total).0;
    let b = public_system(v).result_of(other).0;
    assert(b =~= public_system(a));
}

/// The constraint on a result is the same with all values known and with none known.
proof fn lemma_same_constraint(
    v: R1csV,
    total: Answer,
    other: Answer,
    constraint: spec_fn(VariablesV) -> ConstraintV,
)
    requires
        v.use_witness,
    ensures
        same_step(
            R1csV::constrained(v.result_of(total), constraint),
            R1csV::constrained(public_system(v).result_of(other), constraint),
        ),
{
    let known = v.result_of(total);
    let unknown = public_system(v).result_of(other);
    if known.1 is Ok {
        lemma_same_result(v, total, other);
        let (out, correction) = known.1->Ok_0;
        assert(unknown.0.unreduced(out, correction) == known.0.unreduced(out, correction));
    }
}

proof fn lemma_same_sum(v: R1csV, a: nat, b: nat)
    requires
        v.use_witness,
    ensures
        same_step(v.sum(a, b), public_system(v).sum(a, b)),
{
    assert forall|total: Answer, other: Answer, constraint: spec_fn(VariablesV) -> ConstraintV|
        same_step(
            #[trigger] R1csV::constrained(v.result_of(total), constraint),
            #[trigger] R1csV::constrained(public_system(v).result_of(other), constraint),
        ) by {
        lemma_same_constraint(v, total, other, constraint);
    }
}

proof fn lemma_same_product(v: R1csV, a: nat, b: nat)
    requires
        v.use_witness,
    ensures
        same_step(v.product(a, b), public_system(v).product(a, b)),
{
    assert forall|total: Answer, other: Answer, constraint: spec_fn(VariablesV) -> ConstraintV|
        same_step(
            #[trigger] R1csV::constrained(v.result_of(total), constraint),
            #[trigger] R1csV::constrained(public_system(v).result_of(other), constraint),
        ) by {
        lemma_same_constraint(v, total, other, constraint);
    }
}

proof fn lemma_same_with_constant(v: R1csV, a: nat, c: nat)
    requires
        v.use_witness,
    ensures
        same_step(v.constant_sum(a, c), public_system(v).constant_sum(a, c)),
        same_step(v.constant_product(a, c), public_system(v).constant_product(a, c)),
{
    assert forall|total: Answer, other: Answer, constraint: spec_fn(VariablesV) -> ConstraintV|
        same_step(
            #[trigger] R1csV::constrained(v.result_of(total), constraint),
            #[trigger] R1csV::constrained(public_system(v).result_of(other), constraint),
        ) by {
        lemma_same_constraint(v, total, other, constraint);
    }
}

proof fn lemma_same_instance(v: R1csV, value: nat)
    requires
        v.use_witness,
    ensures
        same_step(v.with_instance(value), public_system(v).with_instance(value)),
{
    if v.with_instance(value).1 is Ok {
        assert(public_system(v).with_instance(value).0 =~= public_system(
            v.with_instance(value).0,
        ));
    }
}

proof fn lemma_same_witness(v: R1csV, value: Option<nat>)
    requires
        v.use_witness,
    ensures
        same_step(v.with_witness(value), public_system(v).with_witness(None)),
{
    if v.with_witness(value).1 is Ok {
        assert(public_system(v).with_witness(None).0 =~= public_system(v.with_witness(value).0));
    }
}

proof fn lemma_same_field(v: R1csV, modulus: Seq<u8>, degree: u32)
    requires
        v.use_witness,
    ensures
        same_step(v.over_field(modulus, degree), public_system(v).over_field(modulus, degree)),
{
    if v.over_field(modulus, degree).1 is Ok {
        assert(public_system(v).over_field(modulus, degree).0 =~= public_system(
            v.over_field(modulus, degree).0,
        ));
    }
}

/// A request writes the same with all values known and with none known.
proof fn lemma_same_step(v: R1csV, r1: Request, r2: Request)
    requires
        v.use_witness,
        paired(r1, r2),
    ensures
        same_step(written(v, r1), written(public_system(v), r2)),
{
    match r1 {
        Request::SetField { modulus, degree, is_boolean } => {
            lemma_same_field(v, modulus, degree);
        },
        Request::Constant(c) => {
            lemma_same_instance(v, c);
        },
        Request::Instance(x) => {
            lemma_same_instance(v, x);
        },
        Request::Witness(x) => {
            lemma_same_witness(v, x);
        },
        Request::Add(a, b) => {
            lemma_same_sum(v, a, b);
        },
        Request::Xor(a, b) => {
            lemma_same_sum(v, a, b);
        },
        Request::Multiply(a, b) => {
            lemma_same_product(v, a, b);
        },
        Request::And(a, b) => {
            lemma_same_product(v, a, b);
        },
        Request::AddConstant(a, c) => {
            lemma_same_with_constant(v, a, c);
        },
        Request::MulConstant(a, c) => {
            lemma_same_with_constant(v, a, c);
        },
        Request::Not(a) => {
            lemma_same_with_constant(v, a, 1);
        },
        _ => {},
    }
}

/// A system with one more request.
pub(crate) proof fn lemma_next_system(s: BackendState, r: Request)
    requires
        s.settings[0] == 1,
    ensures
        system_of(converter_after(s, r)) == written(system_of(s), r).0,
{
    assert(s.requests.push(r).drop_last() =~= s.requests);
}

pub(crate) proof fn lemma_pair(
    use_correction: bool,
    s1: BackendState,
    s2: BackendState,
    r1: Request,
    r2: Request,
)
    requires
        same_but_private(use_correction, s1, s2),
        paired(r1, r2),
        converter_answer(s1, r1) is Ok,
    ensures
        converter_answer(s2, r2) == converter_answer(s1, r1),
        same_but_private(use_correction, converter_after(s1, r1), converter_after(s2, r2)),
{
    reveal(same_but_private);
    let v = system_of(s1);
    let w = system_of(s2);
    let t1 = converter_after(s1, r1);
    let t2 = converter_after(s2, r2);
    let a = written(v, r1);
    let b = written(w, r2);
    assert(same_step(a, b)) by {
        lemma_same_step(v, r1, r2);
    }
    assert(system_of(t1) == a.0) by {
        lemma_next_system(s1, r1);
    }
    assert(system_of(t2) == b.0) by {
        lemma_next_system(s2, r2);
    }
}

proof fn lemma_coupled(use_correction: bool)
    ensures
        coupled::<ToR1CSConverter>(private_apart(use_correction)),
{
    let rel = private_apart(use_correction);
    assert forall|s1: BackendState, s2: BackendState, r1: Request, r2: Request|
        #![trigger ToR1CSConverter::answer(s1, r1), ToR1CSConverter::answer(s2, r2)]
        #![trigger ToR1CSConverter::after(s1, r1), ToR1CSConverter::after(s2, r2)]
        rel(s1, s2) && paired(r1, r2) && ToR1CSConverter::answer(s1, r1) is Ok implies {
            &&& ToR1CSConverter::answer(s2, r2) == ToR1CSConverter::answer(s1, r1)
            &&& rel(ToR1CSConverter::after(s1, r1), ToR1CSConverter::after(s2, r2))
        } by {
        lemma_pair(use_correction, s1, s2, r1, r2);
    }
}

/// Who knows the witness and who does not write the same constraint system. Where the
/// messages of a statement are written with all values known, they are written with none
/// known, once the witnesses among them are left out. The instance variables, the
/// constraints, the number of variables and the field are then the same, and so are the
/// variables of the wires.
pub proof fn witness_changes_nothing_public(messages: Seq<Message>, use_correction: bool)
    ensures
        ({
            let (known, s1) = with_messages::<ToR1CSConverter>(
                fresh(),
                converter_state(true, true, use_correction, Seq::empty()),
                messages,
                0,
            );
            let (unknown, s2) = with_messages::<ToR1CSConverter>(
                fresh(),
                converter_state(true, false, use_correction, Seq::empty()),
                public_part(messages, 0),
                0,
            );
            known.error is None ==> {
                &&& unknown.error is None
                &&& unknown.scope == known.scope
                &&& system_of(s2) == public_system(system_of(s1))
            }
        }),
{
    let rel = private_apart(use_correction);
    let s1 = converter_state(true, true, use_correction, Seq::empty());
    let s2 = converter_state(true, false, use_correction, Seq::empty());
    lemma_coupled(use_correction);
    assert(empty_r1cs(false, use_correction) =~= public_system(empty_r1cs(true, use_correction)));
    reveal(same_but_private);
    assert(rel(s1, s2));
    if with_messages::<ToR1CSConverter>(fresh(), s1, messages, 0).0.error is None {
        public_part_is_accepted::<ToR1CSConverter>(rel, (fresh(), s1), (fresh(), s2), messages, 0);
    }
}

} // verus!
