//! What circuits are evaluated with.

use crate::error::Error;
use crate::producers::sink::SinkV;
use vstd::prelude::*;

verus! {

/// What a backend is asked to do. Wires and field elements are named by the
/// numbers that `ZKBackend::wire` and `ZKBackend::element` give them.
pub enum Request {
    SetField { modulus: Seq<u8>, degree: u32, is_boolean: bool },
    One,
    MinusOne,
    Zero,
    Copy(nat),
    Constant(nat),
    AssertZero(nat),
    Add(nat, nat),
    Multiply(nat, nat),
    AddConstant(nat, nat),
    MulConstant(nat, nat),
    And(nat, nat),
    Xor(nat, nat),
    Not(nat),
    Instance(nat),
    Witness(Option<nat>),
}

/// All that the answers of a backend depend on, and what it writes to.
#[verifier::ext_equal]
pub struct BackendState {
    /// What the backend was made with or holds for good.
    pub settings: Seq<nat>,
    /// What it was asked that still bears on its answers, oldest first.
    pub requests: Seq<Request>,
    /// What the sink that it was given had got before, if it was given one.
    pub given: Option<SinkV>,
}

/// A number, or the words of a refusal. The number of an answer without a value
/// is zero.
pub type Answer = Result<nat, Seq<char>>;

/// The answer that the result of an executable call carries, `n` being the number
/// of its value.
pub open spec fn answered<T>(r: Result<T, Error>, n: nat) -> Answer {
    match r {
        Ok(_) => Ok(n),
        Err(e) => Err(e@),
    }
}

/// What has to be implemented to evaluate SIEVE IR circuits. It has to define 2
/// types:
///  - `Wire`: a variable of the circuit.
///  - `FieldElement`: an element of the underlying field, mainly used when values
///    are taken from the pools of instances and witnesses.
///
/// A backend is a state machine: `answer` and `after` say, for each request, what
/// it answers in a given state and in which state it is left. A backend that
/// draws on something else, such as a source of randomness, has that in its
/// state. What a backend does not say of itself is that it accepts everything and
/// tells nothing apart.
pub trait ZKBackend: Sized {
    type Wire;

    /// Usually a big integer type.
    type FieldElement: 'static + Clone;

    /// A number by which the backend tells the wire apart.
    open spec fn wire(w: Self::Wire) -> nat {
        0
    }

    /// A number by which the backend tells the element apart.
    open spec fn element(x: Self::FieldElement) -> nat {
        0
    }

    /// The element that little-endian bytes stand for, where they do.
    open spec fn parse(bytes: Seq<u8>) -> Answer {
        Ok(0)
    }

    /// What the answers depend on at present.
    open spec fn state(&self) -> BackendState {
        BackendState { settings: Seq::empty(), requests: Seq::empty(), given: None }
    }

    /// The answer to a request in a state.
    open spec fn answer(state: BackendState, request: Request) -> Answer {
        Ok(0)
    }

    /// The state after a request in a state.
    open spec fn after(state: BackendState, request: Request) -> BackendState {
        state
    }

    /// A copy of an element is the same element.
    proof fn clone_is_same(x: Self::FieldElement, y: Self::FieldElement)
        requires
            cloned(x, y),
        ensures
            Self::element(x) == Self::element(y),
    ;

    /// Imports a `Self::FieldElement` from a byte buffer, in little endian.
    /// If the buffer does not represent an element of the underlying field, then
    /// it returns an Err.
    fn from_bytes_le(val: &[u8]) -> (r: Result<Self::FieldElement, Error>)
        ensures
            answered(r, Self::element(r->Ok_0)) == Self::parse(val@),
    ;

    /// Set the underlying field of the running backend.
    /// If the field is not compatible with this ZKBackend, then it should return Err
    fn set_field(&mut self, modulus: &[u8], degree: u32, is_boolean: bool) -> (r: Result<
        (),
        Error,
    >)
        ensures
            answered(r, 0) == Self::answer(
                old(self).state(),
                Request::SetField { modulus: modulus@, degree, is_boolean },
            ),
            final(self).state() == Self::after(
                old(self).state(),
                Request::SetField { modulus: modulus@, degree, is_boolean },
            ),
    ;

    /// Returns a `FieldElement` representing '1' in the underlying field.
    fn one(&self) -> (r: Result<Self::FieldElement, Error>)
        ensures
            answered(r, Self::element(r->Ok_0)) == Self::answer(self.state(), Request::One),
    ;

    /// Returns a `FieldElement` representing '-1' in the underlying field.
    fn minus_one(&self) -> (r: Result<Self::FieldElement, Error>)
        ensures
            answered(r, Self::element(r->Ok_0)) == Self::answer(self.state(), Request::MinusOne),
    ;

    /// Returns a `FieldElement` representing '0' in the underlying field.
    fn zero(&self) -> (r: Result<Self::FieldElement, Error>)
        ensures
            answered(r, Self::element(r->Ok_0)) == Self::answer(self.state(), Request::Zero),
    ;

    /// Returns a new instance of a given wire.
    fn copy(&mut self, wire: &Self::Wire) -> (r: Result<Self::Wire, Error>)
        ensures
            answered(r, Self::wire(r->Ok_0)) == Self::answer(
                old(self).state(),
                Request::Copy(Self::wire(*wire)),
            ),
            final(self).state() == Self::after(
                old(self).state(),
                Request::Copy(Self::wire(*wire)),
            ),
    ;

    /// Imports a constant value into a new `Self::Wire`.
    fn constant(&mut self, val: Self::FieldElement) -> (r: Result<Self::Wire, Error>)
        ensures
            answered(r, Self::wire(r->Ok_0)) == Self::answer(
                old(self).state(),
                Request::Constant(Self::element(val)),
            ),
            final(self).state() == Self::after(
                old(self).state(),
                Request::Constant(Self::element(val)),
            ),
    ;

    /// This functions checks whether the given `Self::Wire` is indeed zero or not.
    /// Depending upon whether `self` is in prover, or verifier mode, this function should act
    /// accordingly. E.g. in prover mode, if the wire is not zero, then this function should
    /// return an Err.
    fn assert_zero(&mut self, wire: &Self::Wire) -> (r: Result<(), Error>)
        ensures
            answered(r, 0) == Self::answer(
                old(self).state(),
                Request::AssertZero(Self::wire(*wire)),
            ),
            final(self).state() == Self::after(
                old(self).state(),
                Request::AssertZero(Self::wire(*wire)),
            ),
    ;

    /// Adds two wires into a new wire.
    fn add(&mut self, a: &Self::Wire, b: &Self::Wire) -> (r: Result<Self::Wire, Error>)
        ensures
            answered(r, Self::wire(r->Ok_0)) == Self::answer(
                old(self).state(),
                Request::Add(Self::wire(*a), Self::wire(*b)),
            ),
            final(self).state() == Self::after(
                old(self).state(),
                Request::Add(Self::wire(*a), Self::wire(*b)),
            ),
    ;

    /// Multiplies two wires into a new wire.
    fn multiply(&mut self, a: &Self::Wire, b: &Self::Wire) -> (r: Result<Self::Wire, Error>)
        ensures
            answered(r, Self::wire(r->Ok_0)) == Self::answer(
                old(self).state(),
                Request::Multiply(Self::wire(*a), Self::wire(*b)),
            ),
            final(self).state() == Self::after(
                old(self).state(),
                Request::Multiply(Self::wire(*a), Self::wire(*b)),
            ),
    ;

    /// Adds a given wire by a constant `Self::FieldElement` into a new wire.
    fn add_constant(&mut self, a: &Self::Wire, b: Self::FieldElement) -> (r: Result<
        Self::Wire,
        Error,
    >)
        ensures
            answered(r, Self::wire(r->Ok_0)) == Self::answer(
                old(self).state(),
                Request::AddConstant(Self::wire(*a), Self::element(b)),
            ),
            final(self).state() == Self::after(
                old(self).state(),
                Request::AddConstant(Self::wire(*a), Self::element(b)),
            ),
    ;

    /// Multiplies a given wire by a constant `Self::FieldElement` into a new wire.
    fn mul_constant(&mut self, a: &Self::Wire, b: Self::FieldElement) -> (r: Result<
        Self::Wire,
        Error,
    >)
        ensures
            answered(r, Self::wire(r->Ok_0)) == Self::answer(
                old(self).state(),
                Request::MulConstant(Self::wire(*a), Self::element(b)),
            ),
            final(self).state() == Self::after(
                old(self).state(),
                Request::MulConstant(Self::wire(*a), Self::element(b)),
            ),
    ;

    /// Performs a boolean `and` between two wires. The result is stored in a new wire.
    fn and(&mut self, a: &Self::Wire, b: &Self::Wire) -> (r: Result<Self::Wire, Error>)
        ensures
            answered(r, Self::wire(r->Ok_0)) == Self::answer(
                old(self).state(),
                Request::And(Self::wire(*a), Self::wire(*b)),
            ),
            final(self).state() == Self::after(
                old(self).state(),
                Request::And(Self::wire(*a), Self::wire(*b)),
            ),
    ;

    /// Performs a boolean `xor` between two wires. The result is stored in a new wire.
    fn xor(&mut self, a: &Self::Wire, b: &Self::Wire) -> (r: Result<Self::Wire, Error>)
        ensures
            answered(r, Self::wire(r->Ok_0)) == Self::answer(
                old(self).state(),
                Request::Xor(Self::wire(*a), Self::wire(*b)),
            ),
            final(self).state() == Self::after(
                old(self).state(),
                Request::Xor(Self::wire(*a), Self::wire(*b)),
            ),
    ;

    /// Performs a boolean `not` on a given wire. The result is stored in a new wire.
    fn not(&mut self, a: &Self::Wire) -> (r: Result<Self::Wire, Error>)
        ensures
            answered(r, Self::wire(r->Ok_0)) == Self::answer(
                old(self).state(),
                Request::Not(Self::wire(*a)),
            ),
            final(self).state() == Self::after(old(self).state(), Request::Not(Self::wire(*a))),
    ;

    /// This functions declares a new instance variable owning the value given as parameter,
    /// which should be stored in a new wire.
    fn instance(&mut self, val: Self::FieldElement) -> (r: Result<Self::Wire, Error>)
        ensures
            answered(r, Self::wire(r->Ok_0)) == Self::answer(
                old(self).state(),
                Request::Instance(Self::element(val)),
            ),
            final(self).state() == Self::after(
                old(self).state(),
                Request::Instance(Self::element(val)),
            ),
    ;

    /// This functions declares a new witness variable owning the value given as parameter,
    /// which should be stored in a new wire.
    /// The value is given as a `Option`, because depending upon the type of this ZKBackend
    /// (prover / verifier), it should act differently.
    ///  - In prover mode, the witness should be provided, so the value should be `Some`.
    ///  - In verifier mode, the witness should normally not be provided (except maybe in test mode)
    /// Both cases should return a `Self::Wire` so the ZKBackend should have a specific wire value
    /// to handle it when in verifier mode.
    fn witness(&mut self, val: Option<Self::FieldElement>) -> (r: Result<Self::Wire, Error>)
        ensures
            answered(r, Self::wire(r->Ok_0)) == Self::answer(
                old(self).state(),
                Request::Witness(
                    (match val {
                        Some(x) => Some(Self::element(x)),
                        None => None,
                    }),
                ),
            ),
            final(self).state() == Self::after(
                old(self).state(),
                Request::Witness(
                    (match val {
                        Some(x) => Some(Self::element(x)),
                        None => None,
                    }),
                ),
            ),
    ;
}

/// A wire's number, or the words of a refusal.
pub open spec fn wire_answer<B: ZKBackend>(r: Result<B::Wire, Error>) -> Answer {
    answered(r, B::wire(r->Ok_0))
}

} // verus!
