//! Every variable of a constraint system that is in use has a value.

use crate::consumers::backend::{Answer, BackendState, Request, ZKBackend};
use crate::consumers::coupling::{coupled, paired, public_part_is_accepted, Relating};
use crate::consumers::r1cs_builder::{empty_r1cs, R1csV};
use crate::consumers::r1cs_law::{
    grounded, lemma_grown, lemma_instance, lemma_result, lemma_witness, opened, solution,
};
use crate::consumers::semantics::{fresh, with_messages};
use crate::consumers::to_r1cs::{
    converter_after, converter_answer, converter_state, system_of, written, ToR1CSConverter,
};
use crate::consumers::verifier_law::{
    lemma_next_system, lemma_pair, public_system, same_but_private,
};
use crate::structs::message::Message;
use crate::structs::r1cs::{listed, ConstraintV, VariablesV};
use vstd::prelude::*;

verus! {

/// Whether every variable below the first free one has a value.
spec fn filled_up(v: R1csV) -> bool {
    forall|id: u64| (id as nat) < v.free_id ==> #[trigger] solution(v).contains_key(id)
}

proof fn lemma_result_fills(v: R1csV, total: Answer)
    requires
        grounded(v),
        filled_up(v),
    ensures
        forall|constraint: spec_fn(VariablesV) -> ConstraintV|
            (#[trigger] R1csV::constrained(v.result_of(total), constraint)).1 is Ok ==> filled_up(
                R1csV::constrained(v.result_of(total), constraint).0,
            ),
{
    lemma_result(v, total);
    let (w1, r) = v.result_of(total);
    assert forall|constraint: spec_fn(VariablesV) -> ConstraintV|
        (#[trigger] R1csV::constrained(v.result_of(total), constraint)).1 is Ok implies filled_up(
        R1csV::constrained(v.result_of(total), constraint).0,
    ) by {
        let w = R1csV::constrained(v.result_of(total), constraint).0;
        assert(solution(w) == solution(w1));
        assert forall|id: u64| (id as nat) < w.free_id implies #[trigger] solution(
            w,
        ).contains_key(id) by {
            if (id as nat) < v.free_id {
                assert(solution(v).contains_key(id));
            }
        }
    }
}

#[verifier::rlimit(40)]
proof fn lemma_operation_fills(v: R1csV, r: Request)
    requires
        grounded(v),
        filled_up(v),
        written(v, r).1 is Ok,
        r is Add || r is Xor || r is Multiply || r is And || r is AddConstant || r is MulConstant
            || r is Not,
    ensures
        filled_up(written(v, r).0),
{
    assert forall|total: Answer, constraint: spec_fn(VariablesV) -> ConstraintV|
        (#[trigger] R1csV::constrained(v.result_of(total), constraint)).1 is Ok implies filled_up(
        R1csV::constrained(v.result_of(total), constraint).0,
    ) by {
        lemma_result_fills(v, total);
    }
}

proof fn lemma_step_fills(v: R1csV, r: Request)
    requires
        grounded(v),
        filled_up(v),
        written(v, r).1 is Ok,
    ensures
        filled_up(written(v, r).0),
{
    let w = written(v, r).0;
    match r {
        Request::Constant(x) => {
            lemma_instance(v, x);
            lemma_one_more(v, w);
        },
        Request::Instance(x) => {
            lemma_instance(v, x);
            lemma_one_more(v, w);
        },
        Request::Witness(x) => {
            lemma_witness(v, x);
            lemma_one_more(v, w);
        },
        Request::SetField { .. } => {
            assert(solution(w) == solution(v));
            lemma_no_more(v, w);
        },
        Request::AssertZero(_) => {
            assert(solution(w) == solution(v));
            lemma_no_more(v, w);
        },
        Request::Copy(_) => {},
        Request::One => {},
        Request::MinusOne => {},
        Request::Zero => {},
        _ => {
            lemma_operation_fills(v, r);
        },
    }
}

proof fn lemma_no_more(v: R1csV, w: R1csV)
    requires
        filled_up(v),
        solution(w) == solution(v),
        w.free_id == v.free_id,
    ensures
        filled_up(w),
{
}

proof fn lemma_one_more(v: R1csV, w: R1csV)
    requires
        filled_up(v),
        w.free_id == v.free_id + 1,
        exists|x: nat| solution(w) == #[trigger] solution(v).insert(v.free_id as u64, x),
    ensures
        filled_up(w),
{
    assert forall|id: u64| (id as nat) < w.free_id implies #[trigger] solution(w).contains_key(
        id,
    ) by {
        if (id as nat) < v.free_id {
            assert(solution(v).contains_key(id));
        }
    }
}

#[verifier::opaque]
spec fn in_use_filled(use_correction: bool, s: BackendState) -> bool {
    &&& s == converter_state(true, true, use_correction, s.requests)
    &&& grounded(system_of(s))
    &&& filled_up(system_of(s))
}

spec fn filled_apart(use_correction: bool) -> Relating {
    |s1: BackendState, s2: BackendState|
        same_but_private(use_correction, s1, s2) && in_use_filled(use_correction, s1)
}

proof fn lemma_filled(use_correction: bool, s: BackendState, r: Request)
    requires
        in_use_filled(use_correction, s),
        converter_answer(s, r) is Ok,
    ensures
        in_use_filled(use_correction, converter_after(s, r)),
{
    reveal(in_use_filled);
    lemma_next_system(s, r);
    lemma_grown(system_of(s), r);
    lemma_step_fills(system_of(s), r);
}

proof fn lemma_coupled(use_correction: bool)
    ensures
        coupled::<ToR1CSConverter>(filled_apart(use_correction)),
{
    let rel = filled_apart(use_correction);
    assert forall|s1: BackendState, s2: BackendState, r1: Request, r2: Request|
        #![trigger ToR1CSConverter::answer(s1, r1), ToR1CSConverter::answer(s2, r2)]
        #![trigger ToR1CSConverter::after(s1, r1), ToR1CSConverter::after(s2, r2)]
        rel(s1, s2) && paired(r1, r2) && ToR1CSConverter::answer(s1, r1) is Ok implies {
            &&& ToR1CSConverter::answer(s2, r2) == ToR1CSConverter::answer(s1, r1)
            &&& rel(ToR1CSConverter::after(s1, r1), ToR1CSConverter::after(s2, r2))
        } by {
        lemma_pair(use_correction, s1, s2, r1, r2);
        lemma_filled(use_correction, s1, r1);
    }
}

/// The variables that have a value in a written system are just those below the first free
/// one: each is variable zero, an instance variable or a private one with its value.
pub proof fn variables_in_use_have_values(messages: Seq<Message>, use_correction: bool)
    requires
        with_messages::<ToR1CSConverter>(
            fresh(),
            opened(use_correction),
            messages,
            0,
        ).0.error is None,
    ensures
        ({
            let v = system_of(
                with_messages::<ToR1CSConverter>(fresh(), opened(use_correction), messages, 0).1,
            );
            &&& v.free_id > 0
            &&& forall|id: u64| #[trigger]
                solution(v).contains_key(id) <==> (id as nat) < v.free_id
        }),
{
    let rel = filled_apart(use_correction);
    let s1 = opened(use_correction);
    let s2 = converter_state(true, false, use_correction, Seq::empty());
    lemma_coupled(use_correction);
    let v = empty_r1cs(true, use_correction);
    assert(empty_r1cs(false, use_correction) =~= public_system(v));
    assert(listed(v.instances) =~= Map::empty());
    assert(listed(v.privates) =~= Map::empty());
    assert(rel(s1, s2)) by {
        reveal(same_but_private);
        reveal(in_use_filled);
    }
    public_part_is_accepted::<ToR1CSConverter>(rel, (fresh(), s1), (fresh(), s2), messages, 0);
    reveal(in_use_filled);
}

} // verus!
