//! What single gates do to scopes and backends.

use crate::consumers::backend::{wire_answer, BackendState, Request, ZKBackend};
use crate::consumers::semantics::{
    add_request, already_text, ask, branch_weight, mul_request, negated, no_value_text, plus_one,
    power, Reply, Scope, Text,
};
use crate::error::Error;
use crate::number::BigUint;
use crate::structs::wire::WireId;
use std::collections::HashMap;
use vstd::prelude::*;

verus! {

broadcast use vstd::std_specs::hash::group_hash_axioms;

/// The numbers of the wires of a scope.
pub open spec fn wires<B: ZKBackend>(scope: Map<u64, B::Wire>) -> Scope {
    scope.map_values(|w: B::Wire| B::wire(w))
}

/// The numbers of the elements of a queue.
pub open spec fn elements<B: ZKBackend>(queue: Seq<B::FieldElement>) -> Seq<nat> {
    queue.map_values(|x: B::FieldElement| B::element(x))
}

/// The number of the weight, where there is one.
pub open spec fn weight_number<B: ZKBackend>(weight: Option<&B::Wire>) -> Option<nat> {
    match weight {
        Some(w) => Some(B::wire(*w)),
        None => None,
    }
}

/// Whether a call succeeded, and the words of its error where it did not.
pub open spec fn told(r: Result<(), Error>) -> Result<(), Text> {
    match r {
        Ok(_) => Ok(()),
        Err(e) => Err(e@),
    }
}

pub proof fn lemma_wires_insert<B: ZKBackend>(scope: Map<u64, B::Wire>, id: u64, w: B::Wire)
    ensures
        wires::<B>(scope.insert(id, w)) == wires::<B>(scope).insert(id, B::wire(w)),
{
    assert(wires::<B>(scope.insert(id, w)) =~= wires::<B>(scope).insert(id, B::wire(w)));
}

/// Used to evaluate a 'multiplication' in either the arithmetic case or the boolean,
/// where it's replaced by an AND operation.
pub fn as_mul<B: ZKBackend>(backend: &mut B, a: &B::Wire, b: &B::Wire, is_bool: bool) -> (r: Result<
    B::Wire,
    Error,
>)
    ensures
        (final(backend).state(), wire_answer::<B>(r)) == ask::<B>(
            old(backend).state(),
            mul_request(is_bool, B::wire(*a), B::wire(*b)),
        ),
{
    if is_bool {
        backend.and(a, b)
    } else {
        backend.multiply(a, b)
    }
}

/// Used to evaluate an 'addition' in either the arithmetic case or the boolean,
/// where it's replaced by an XOR operation.
pub fn as_add<B: ZKBackend>(backend: &mut B, a: &B::Wire, b: &B::Wire, is_bool: bool) -> (r: Result<
    B::Wire,
    Error,
>)
    ensures
        (final(backend).state(), wire_answer::<B>(r)) == ask::<B>(
            old(backend).state(),
            add_request(is_bool, B::wire(*a), B::wire(*b)),
        ),
{
    if is_bool {
        backend.xor(a, b)
    } else {
        backend.add(a, b)
    }
}

/// Computes the 'negative' value, which is the value itself in the boolean case.
pub fn as_negate<B: ZKBackend>(backend: &mut B, wire: &B::Wire, is_bool: bool) -> (r: Result<
    B::Wire,
    Error,
>)
    ensures
        (final(backend).state(), wire_answer::<B>(r)) == negated::<B>(
            old(backend).state(),
            is_bool,
            B::wire(*wire),
        ),
{
    if is_bool {
        // negation in boolean field is identity
        backend.copy(wire)
    } else {
        match backend.minus_one() {
            Err(e) => Err(e),
            Ok(minus_one) => backend.mul_constant(wire, minus_one),
        }
    }
}

/// Adds one, which is a negation in the boolean case.
pub fn as_add_one<B: ZKBackend>(backend: &mut B, wire: &B::Wire, is_bool: bool) -> (r: Result<
    B::Wire,
    Error,
>)
    ensures
        (final(backend).state(), wire_answer::<B>(r)) == plus_one::<B>(
            old(backend).state(),
            is_bool,
            B::wire(*wire),
        ),
{
    if is_bool {
        // adding one in boolean field is not
        backend.not(wire)
    } else {
        match backend.one() {
            Err(e) => Err(e),
            Ok(one) => backend.add_constant(wire, one),
        }
    }
}

fn already_set(id: WireId) -> (e: Error)
    ensures
        e@ == already_text(id),
{
    Error::with_number("Wire_", id, " already has a value in this scope.")
}

fn no_value(id: WireId) -> (e: Error)
    ensures
        e@ == no_value_text(id),
{
    proof {
        reveal_strlit("");
    }
    let e = Error::with_number("No value given for wire_", id, "");
    assert(e@ =~= no_value_text(id));
    e
}

/// Asks for the wire of an instance value and gives it a number in the scope.
pub fn set_instance<I: ZKBackend>(
    backend: &mut I,
    scope: &mut HashMap<WireId, I::Wire>,
    id: WireId,
    value: I::FieldElement,
) -> (r: Result<(), Error>)
    ensures
        stored::<I>(
            *old(scope),
            *final(scope),
            id,
            ask::<I>(old(backend).state(), Request::Instance(I::element(value))),
            final(backend).state(),
            r,
        ),
{
    match backend.instance(value) {
        Err(e) => Err(e),
        Ok(wire) => set::<I>(scope, id, wire),
    }
}

/// Asks for the wire of a witness value and gives it a number in the scope.
pub fn set_witness<I: ZKBackend>(
    backend: &mut I,
    scope: &mut HashMap<WireId, I::Wire>,
    id: WireId,
    value: Option<I::FieldElement>,
) -> (r: Result<(), Error>)
    ensures
        stored::<I>(
            *old(scope),
            *final(scope),
            id,
            ask::<I>(
                old(backend).state(),
                Request::Witness(
                    (match value {
                        Some(x) => Some(I::element(x)),
                        None => None,
                    }),
                ),
            ),
            final(backend).state(),
            r,
        ),
{
    match backend.witness(value) {
        Err(e) => Err(e),
        Ok(wire) => set::<I>(scope, id, wire),
    }
}

/// What the scope, the backend and the result are after a wire was given the
/// value that the backend answered.
pub open spec fn stored<B: ZKBackend>(
    before: HashMap<WireId, B::Wire>,
    after: HashMap<WireId, B::Wire>,
    id: WireId,
    reply: Reply,
    state: BackendState,
    r: Result<(), Error>,
) -> bool {
    &&& state == reply.0
    &&& match reply.1 {
        Err(t) => wires::<B>(after@) == wires::<B>(before@) && told(r) == Err::<(), Text>(t),
        Ok(w) => {
            &&& wires::<B>(after@) == wires::<B>(before@).insert(id, w)
            &&& told(r) == (if before@.contains_key(id) {
                Err::<(), Text>(already_text(id))
            } else {
                Ok(())
            })
        },
    }
}

/// Gives a wire a value. If it had one already, that one is replaced, and an Err is
/// returned.
pub fn set<I: ZKBackend>(scope: &mut HashMap<WireId, I::Wire>, id: WireId, wire: I::Wire) -> (r:
    Result<(), Error>)
    ensures
        final(scope)@ == old(scope)@.insert(id, wire),
        wires::<I>(final(scope)@) == wires::<I>(old(scope)@).insert(id, I::wire(wire)),
        told(r) == (if old(scope)@.contains_key(id) {
            Err::<(), Text>(already_text(id))
        } else {
            Ok(())
        }),
{
    proof {
        lemma_wires_insert::<I>(scope@, id, wire);
    }
    if scope.insert(id, wire).is_some() {
        Err(already_set(id))
    } else {
        Ok(())
    }
}

/// The value of a wire of a scope.
pub fn get<I: ZKBackend>(scope: &HashMap<WireId, I::Wire>, id: WireId) -> (r: Result<
    &I::Wire,
    Error,
>)
    ensures
        match r {
            Ok(w) => scope@.contains_key(id) && *w == scope@[id],
            Err(e) => !scope@.contains_key(id) && e@ == no_value_text(id),
        },
{
    match scope.get(&id) {
        Some(w) => Ok(w),
        None => Err(no_value(id)),
    }
}

/// Takes a wire out of a scope.
pub fn remove<I: ZKBackend>(scope: &mut HashMap<WireId, I::Wire>, id: WireId) -> (r: Result<
    I::Wire,
    Error,
>)
    ensures
        final(scope)@ == old(scope)@.remove(id),
        match r {
            Ok(w) => old(scope)@.contains_key(id) && w == old(scope)@[id],
            Err(e) => !old(scope)@.contains_key(id) && e@ == no_value_text(id),
        },
{
    let r = scope.remove(&id);
    assert(scope@ =~= old(scope)@.remove(id));
    match r {
        Some(w) => Ok(w),
        None => Err(no_value(id)),
    }
}

/// This function will compute the modular exponentiation of a given base to a given exponent
/// recursively. It returns the wire holding the result.
pub fn exp<I: ZKBackend>(
    backend: &mut I,
    base: &I::Wire,
    exponent: &BigUint,
    modulus: &BigUint,
    is_boolean: bool,
) -> (r: Result<I::Wire, Error>)
    requires
        exponent@ >= 1,
    ensures
        (final(backend).state(), wire_answer::<I>(r)) == power::<I>(
            old(backend).state(),
            is_boolean,
            I::wire(*base),
            exponent@,
        ),
    decreases exponent@,
{
    if exponent.is_one() {
        return backend.copy(base);
    }
    let previous = match exp(backend, base, &exponent.half(), modulus, is_boolean) {
        Err(e) => {
            return Err(e);
        },
        Ok(previous) => previous,
    };
    let ret = as_mul(backend, &previous, &previous, is_boolean);
    if exponent.is_odd() {
        match ret {
            Err(e) => Err(e),
            Ok(square) => as_mul(backend, &square, base, is_boolean),
        }
    } else {
        ret
    }
}

/// This function will compute '1 - (case - condition)^(p-1)' using a bunch of mul/and add/xor
/// addc/xorc gates
pub fn compute_weight<B: ZKBackend>(
    backend: &mut B,
    case: &[u8],
    condition: &B::Wire,
    modulus: &BigUint,
    is_boolean: bool,
) -> (r: Result<B::Wire, Error>)
    ensures
        (final(backend).state(), wire_answer::<B>(r)) == branch_weight::<B>(
            old(backend).state(),
            modulus@,
            is_boolean,
            case@,
            B::wire(*condition),
        ),
{
    if modulus.is_zero() || modulus.is_one() {
        return Err(Error::new("The modulus of a switch must be at least 2"));
    }
    let case_element = match B::from_bytes_le(case) {
        Err(e) => {
            return Err(e);
        },
        Ok(x) => x,
    };
    let case_wire = match backend.constant(case_element) {
        Err(e) => {
            return Err(e);
        },
        Ok(w) => w,
    };
    // scalar value
    let exponent = modulus.minus(&BigUint::one());
    let minus_cond = match as_negate(backend, condition, is_boolean) {
        Err(e) => {
            return Err(e);
        },
        Ok(w) => w,
    };
    let base = match as_add(backend, &case_wire, &minus_cond, is_boolean) {
        Err(e) => {
            return Err(e);
        },
        Ok(w) => w,
    };
    let base_to_exp = match exp(backend, &base, &exponent, modulus, is_boolean) {
        Err(e) => {
            return Err(e);
        },
        Ok(w) => w,
    };
    let right = match as_negate(backend, &base_to_exp, is_boolean) {
        Err(e) => {
            return Err(e);
        },
        Ok(w) => w,
    };
    as_add_one(backend, &right, is_boolean)
}

} // verus!
