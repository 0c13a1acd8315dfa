//! The backend that writes a circuit as a rank-1 constraint system.

use crate::consumers::backend::{Answer, BackendState, Request, ZKBackend};
use crate::consumers::plaintext::no_modulus_text;
use crate::consumers::r1cs_builder::{empty_r1cs, holds, Given, R1csBuilder, R1csStatement, R1csV};
use crate::error::Error;
use crate::number::{le_value, BigUint};
use vstd::prelude::*;

pub use crate::consumers::r1cs_builder::pad_to_max;

verus! {

pub open spec fn interrupted_text() -> Seq<char> {
    "The conversion was interrupted."@
}

/// What a request does to a constraint system.
pub open spec fn written(v: R1csV, request: Request) -> Given {
    match request {
        Request::SetField { modulus, degree, is_boolean } => v.over_field(modulus, degree),
        Request::One => (v, Ok(1)),
        Request::MinusOne => (
            v,
            if v.modulus == 0 {
                Err(no_modulus_text())
            } else {
                Ok((v.modulus - 1) as nat)
            },
        ),
        Request::Zero => (v, Ok(0)),
        Request::Copy(a) => (v, Ok(a)),
        Request::Constant(c) => v.with_instance(c),
        Request::AssertZero(a) => v.zero_claimed(a),
        Request::Add(a, b) => v.sum(a, b),
        Request::Multiply(a, b) => v.product(a, b),
        Request::AddConstant(a, c) => v.constant_sum(a, c),
        Request::MulConstant(a, c) => v.constant_product(a, c),
        Request::And(a, b) => v.product(a, b),
        Request::Xor(a, b) => v.sum(a, b),
        Request::Not(a) => v.constant_sum(a, 1),
        Request::Instance(x) => v.with_instance(x),
        Request::Witness(x) => v.with_witness(x),
    }
}

/// The constraint system that requests are written as.
pub open spec fn converted(
    use_witness: bool,
    use_correction: bool,
    requests: Seq<Request>,
) -> R1csV
    decreases requests.len(),
{
    if requests.len() == 0 {
        empty_r1cs(use_witness, use_correction)
    } else {
        written(
            converted(use_witness, use_correction, requests.drop_last()),
            requests.last(),
        ).0
    }
}

pub open spec fn flag(b: bool) -> nat {
    if b {
        1
    } else {
        0
    }
}

/// The state of a converter: whether it goes on, how it was made, and its requests.
pub open spec fn converter_state(
    going: bool,
    use_witness: bool,
    use_correction: bool,
    requests: Seq<Request>,
) -> BackendState {
    BackendState {
        settings: seq![flag(going), flag(use_witness), flag(use_correction)],
        requests,
        given: None,
    }
}

/// The constraint system of a state.
pub open spec fn system_of(state: BackendState) -> R1csV {
    converted(state.settings[1] == 1, state.settings[2] == 1, state.requests)
}

/// The answers of a converter.
pub open spec fn converter_answer(state: BackendState, request: Request) -> Answer {
    if state.settings[0] != 1 {
        Err(interrupted_text())
    } else {
        written(system_of(state), request).1
    }
}

/// A converter after a request.
pub open spec fn converter_after(state: BackendState, request: Request) -> BackendState {
    if state.settings[0] != 1 {
        state
    } else {
        BackendState { requests: state.requests.push(request), ..state }
    }
}

/// A value that may be known.
pub open spec fn known_value(val: Option<BigUint>) -> Option<nat> {
    match val {
        Some(x) => Some(x@),
        None => None,
    }
}

/// Writes every request as a part of a constraint system.
pub struct ToR1CSConverter {
    builder: Option<R1csBuilder>,
    use_witness: bool,
    use_correction: bool,
    log: Ghost<Seq<Request>>,
}

impl ToR1CSConverter {
    #[verifier::type_invariant]
    spec fn wf(self) -> bool {
        self.builder matches Some(b) ==> b@ == converted(
            self.use_witness,
            self.use_correction,
            self.log@,
        )
    }

    /// A converter. With `use_witness`, the values of all variables are written too.
    /// With `use_correction`, modular reductions are written as constraints, so that
    /// the system holds in a larger field.
    pub fn new(use_witness: bool, use_correction: bool) -> (r: Self)
        ensures
            r.state() == converter_state(true, use_witness, use_correction, Seq::empty()),
    {
        ToR1CSConverter {
            builder: Some(R1csBuilder::new(use_witness, use_correction)),
            use_witness,
            use_correction,
            log: Ghost(Seq::empty()),
        }
    }

    /// The whole statement.
    pub fn finish(self) -> (r: R1csStatement)
        requires
            self.state().settings[0] == 1,
        ensures
            holds(r, system_of(self.state())),
    {
        proof {
            use_type_invariant(&self);
        }
        self.builder.unwrap().finish()
    }

    /// Takes the builder out for a request.
    fn take(&mut self) -> (r: Option<R1csBuilder>)
        ensures
            r is Some == (old(self).state().settings[0] == 1),
            r matches Some(b) ==> b@ == system_of(old(self).state()),
            final(self).builder is None,
            final(self).use_witness == old(self).use_witness,
            final(self).use_correction == old(self).use_correction,
            final(self).log == old(self).log,
    {
        proof {
            use_type_invariant(&*self);
        }
        let mut taken: Option<R1csBuilder> = None;
        std::mem::swap(&mut taken, &mut self.builder);
        taken
    }

    /// Puts the builder back after a request.
    fn put_back(&mut self, builder: R1csBuilder, Ghost(request): Ghost<Request>)
        requires
            builder@ == written(
                converted(old(self).use_witness, old(self).use_correction, old(self).log@),
                request,
            ).0,
        ensures
            final(self).state() == converter_state(
                true,
                old(self).use_witness,
                old(self).use_correction,
                old(self).log@.push(request),
            ),
    {
        self.builder = None;
        assert(self.log@.push(request).drop_last() =~= self.log@);
        self.log = Ghost(self.log@.push(request));
        self.builder = Some(builder);
    }
}

impl ZKBackend for ToR1CSConverter {
    // The number of a variable.
    type Wire = u64;

    type FieldElement = BigUint;

    open spec fn wire(w: u64) -> nat {
        w as nat
    }

    open spec fn element(x: BigUint) -> nat {
        x@
    }

    open spec fn parse(bytes: Seq<u8>) -> Answer {
        Ok(le_value(bytes))
    }

    closed spec fn state(&self) -> BackendState {
        converter_state(
            self.builder is Some,
            self.use_witness,
            self.use_correction,
            self.log@,
        )
    }

    open spec fn answer(state: BackendState, request: Request) -> Answer {
        converter_answer(state, request)
    }

    open spec fn after(state: BackendState, request: Request) -> BackendState {
        converter_after(state, request)
    }

    proof fn clone_is_same(x: BigUint, y: BigUint) {
        assert(call_ensures(BigUint::clone, (&x,), y) || x == y);
    }

    fn from_bytes_le(val: &[u8]) -> (r: Result<BigUint, Error>) {
        Ok(BigUint::from_bytes_le(val))
    }

    fn set_field(&mut self, modulus: &[u8], degree: u32, is_boolean: bool) -> (r: Result<(), Error>) {
        match self.take() {
            None => Err(Error::new("The conversion was interrupted.")),
            Some(builder) => {
                let mut builder = builder;
                let r = builder.set_field(modulus, degree);
                let ghost request = Request::SetField { modulus: modulus@, degree, is_boolean };
                self.put_back(builder, Ghost(request));
                r
            },
        }
    }

    fn one(&self) -> (r: Result<BigUint, Error>) {
        match &self.builder {
            None => Err(Error::new("The conversion was interrupted.")),
            Some(_) => Ok(BigUint::one()),
        }
    }

    fn minus_one(&self) -> (r: Result<BigUint, Error>) {
        proof {
            use_type_invariant(self);
        }
        match &self.builder {
            None => Err(Error::new("The conversion was interrupted.")),
            Some(builder) => builder.minus_one(),
        }
    }

    fn zero(&self) -> (r: Result<BigUint, Error>) {
        match &self.builder {
            None => Err(Error::new("The conversion was interrupted.")),
            Some(_) => Ok(BigUint::zero()),
        }
    }

    fn copy(&mut self, wire: &u64) -> (r: Result<u64, Error>) {
        match self.take() {
            None => Err(Error::new("The conversion was interrupted.")),
            Some(builder) => {
                let mut builder = builder;
                let r: Result<u64, Error> = Ok(*wire);
                self.put_back(builder, Ghost(Request::Copy(*wire as nat)));
                r
            },
        }
    }

    fn constant(&mut self, val: BigUint) -> (r: Result<u64, Error>) {
        match self.take() {
            None => Err(Error::new("The conversion was interrupted.")),
            Some(builder) => {
                let mut builder = builder;
                let ghost value = val@;
                let r = builder.push_instance(val);
                self.put_back(builder, Ghost(Request::Constant(value)));
                r
            },
        }
    }

    fn assert_zero(&mut self, wire: &u64) -> (r: Result<(), Error>) {
        match self.take() {
            None => Err(Error::new("The conversion was interrupted.")),
            Some(builder) => {
                let mut builder = builder;
                builder.assert_zero(*wire);
                let r: Result<(), Error> = Ok(());
                self.put_back(builder, Ghost(Request::AssertZero(*wire as nat)));
                r
            },
        }
    }

    fn add(&mut self, a: &u64, b: &u64) -> (r: Result<u64, Error>) {
        match self.take() {
            None => Err(Error::new("The conversion was interrupted.")),
            Some(builder) => {
                let mut builder = builder;
                let r = builder.add_variables(*a, *b);
                self.put_back(builder, Ghost(Request::Add(*a as nat, *b as nat)));
                r
            },
        }
    }

    fn multiply(&mut self, a: &u64, b: &u64) -> (r: Result<u64, Error>) {
        match self.take() {
            None => Err(Error::new("The conversion was interrupted.")),
            Some(builder) => {
                let mut builder = builder;
                let r = builder.multiply_variables(*a, *b);
                self.put_back(builder, Ghost(Request::Multiply(*a as nat, *b as nat)));
                r
            },
        }
    }

    fn add_constant(&mut self, a: &u64, b: BigUint) -> (r: Result<u64, Error>) {
        match self.take() {
            None => Err(Error::new("The conversion was interrupted.")),
            Some(builder) => {
                let mut builder = builder;
                let r = builder.add_to_constant(*a, &b);
                self.put_back(builder, Ghost(Request::AddConstant(*a as nat, b@)));
                r
            },
        }
    }

    fn mul_constant(&mut self, a: &u64, b: BigUint) -> (r: Result<u64, Error>) {
        match self.take() {
            None => Err(Error::new("The conversion was interrupted.")),
            Some(builder) => {
                let mut builder = builder;
                let r = builder.multiply_by_constant(*a, &b);
                self.put_back(builder, Ghost(Request::MulConstant(*a as nat, b@)));
                r
            },
        }
    }

    fn and(&mut self, a: &u64, b: &u64) -> (r: Result<u64, Error>) {
        match self.take() {
            None => Err(Error::new("The conversion was interrupted.")),
            Some(builder) => {
                let mut builder = builder;
                let r = builder.multiply_variables(*a, *b);
                self.put_back(builder, Ghost(Request::And(*a as nat, *b as nat)));
                r
            },
        }
    }

    fn xor(&mut self, a: &u64, b: &u64) -> (r: Result<u64, Error>) {
        match self.take() {
            None => Err(Error::new("The conversion was interrupted.")),
            Some(builder) => {
                let mut builder = builder;
                let r = builder.add_variables(*a, *b);
                self.put_back(builder, Ghost(Request::Xor(*a as nat, *b as nat)));
                r
            },
        }
    }

    fn not(&mut self, a: &u64) -> (r: Result<u64, Error>) {
        match self.take() {
            None => Err(Error::new("The conversion was interrupted.")),
            Some(builder) => {
                let mut builder = builder;
                let r = builder.add_to_constant(*a, &BigUint::one());
                self.put_back(builder, Ghost(Request::Not(*a as nat)));
                r
            },
        }
    }

    fn instance(&mut self, val: BigUint) -> (r: Result<u64, Error>) {
        match self.take() {
            None => Err(Error::new("The conversion was interrupted.")),
            Some(builder) => {
                let mut builder = builder;
                let ghost value = val@;
                let r = builder.push_instance(val);
                self.put_back(builder, Ghost(Request::Instance(value)));
                r
            },
        }
    }

    fn witness(&mut self, val: Option<BigUint>) -> (r: Result<u64, Error>) {
        match self.take() {
            None => Err(Error::new("The conversion was interrupted.")),
            Some(builder) => {
                let mut builder = builder;
                let ghost value = known_value(val);
                let r = builder.push_private(val);
                self.put_back(builder, Ghost(Request::Witness(value)));
                r
            },
        }
    }
}

} // verus!
