//! The backend that computes with the values themselves.

use crate::consumers::backend::{Answer, BackendState, Request, ZKBackend};
use crate::error::Error;
use crate::number::{bits_and, bits_xor, le_value, BigUint};
use vstd::prelude::*;

verus! {

/// This is the default backend, evaluating a IR circuit in plaintext, meaning that it is not meant
/// for security purposes, will never ensure ZK properties, ...
/// It's used only for demo or tests.
/// Moreover, it's not optimized at all for modular operations (e.g. modular multiplications) and
/// can even be slower than a secure backend if the evaluated circuit contains a lot of such
/// operations.
/// Currently, this backend does not support 'verifier' mode, and requires witnesses to be provided.
pub struct PlaintextBackend {
    pub m: BigUint,
}

pub open spec fn no_modulus_text() -> Seq<char> {
    "Modulus is not initiated, used `set_field()` before calling."@
}

/// A number reduced by the modulus; refused while there is none.
pub open spec fn reduced(n: nat, m: nat) -> Answer {
    if m == 0 {
        Err(no_modulus_text())
    } else {
        Ok(n % m)
    }
}

/// The state of a backend with a given modulus.
pub open spec fn plain_state(m: nat) -> BackendState {
    BackendState { settings: seq![m], requests: Seq::empty(), given: None }
}

/// The answers of a plaintext backend with a given modulus. Wires and elements are
/// their own numbers.
pub open spec fn plain_answer(m: nat, request: Request) -> Answer {
    match request {
        Request::SetField { modulus, degree, is_boolean } => if le_value(modulus) == 0 {
            Err("Modulus cannot be zero."@)
        } else if degree != 1 {
            Err("Field should be of degree 1"@)
        } else {
            Ok(0)
        },
        Request::One => Ok(1),
        Request::MinusOne => if m == 0 {
            Err(no_modulus_text())
        } else {
            Ok((m - 1) as nat)
        },
        Request::Zero => Ok(0),
        Request::Copy(a) => Ok(a),
        Request::Constant(c) => Ok(c),
        Request::AssertZero(a) => if a == 0 {
            Ok(0)
        } else {
            Err("AssertZero failed"@)
        },
        Request::Add(a, b) => reduced(a + b, m),
        Request::Multiply(a, b) => reduced(a * b, m),
        Request::AddConstant(a, c) => reduced(a + c, m),
        Request::MulConstant(a, c) => reduced(a * c, m),
        Request::And(a, b) => reduced(bits_and(a, b), m),
        Request::Xor(a, b) => reduced(bits_xor(a, b), m),
        Request::Not(a) => if a == 0 {
            Ok(1)
        } else {
            Ok(0)
        },
        Request::Instance(x) => Ok(x),
        Request::Witness(Some(x)) => Ok(x),
        Request::Witness(None) => Err("Missing witness value for PlaintextBackend"@),
    }
}

impl PlaintextBackend {
    /// A number reduced by the modulus; refused while there is none.
    fn reduce(&self, n: BigUint) -> (r: Result<BigUint, Error>)
        ensures
            reduced(n@, self.m@) == (match r {
                Ok(x) => Ok::<nat, Seq<char>>(x@),
                Err(e) => Err::<nat, Seq<char>>(e@),
            }),
    {
        if self.m.is_zero() {
            Err(Error::new("Modulus is not initiated, used `set_field()` before calling."))
        } else {
            Ok(n.modulo(&self.m))
        }
    }
}

impl Default for PlaintextBackend {
    fn default() -> (r: Self)
        ensures
            r.m@ == 0,
    {
        PlaintextBackend { m: BigUint::zero() }
    }
}

impl ZKBackend for PlaintextBackend {
    type Wire = BigUint;

    type FieldElement = BigUint;

    open spec fn wire(w: BigUint) -> nat {
        w@
    }

    open spec fn element(x: BigUint) -> nat {
        x@
    }

    open spec fn parse(bytes: Seq<u8>) -> Answer {
        Ok(le_value(bytes))
    }

    open spec fn state(&self) -> BackendState {
        plain_state(self.m@)
    }

    open spec fn answer(state: BackendState, request: Request) -> Answer {
        plain_answer(state.settings[0], request)
    }

    open spec fn after(state: BackendState, request: Request) -> BackendState {
        match request {
            Request::SetField { modulus, degree, is_boolean } => plain_state(le_value(modulus)),
            _ => state,
        }
    }

    proof fn clone_is_same(x: BigUint, y: BigUint) {
        assert(call_ensures(BigUint::clone, (&x,), y) || x == y);
    }

    fn from_bytes_le(val: &[u8]) -> (r: Result<BigUint, Error>) {
        Ok(BigUint::from_bytes_le(val))
    }

    fn set_field(&mut self, modulus: &[u8], degree: u32, _is_boolean: bool) -> (r: Result<
        (),
        Error,
    >) {
        self.m = BigUint::from_bytes_le(modulus);
        if self.m.is_zero() {
            Err(Error::new("Modulus cannot be zero."))
        } else if degree != 1 {
            Err(Error::new("Field should be of degree 1"))
        } else {
            Ok(())
        }
    }

    fn one(&self) -> (r: Result<BigUint, Error>) {
        Ok(BigUint::one())
    }

    fn minus_one(&self) -> (r: Result<BigUint, Error>) {
        if self.m.is_zero() {
            return Err(Error::new("Modulus is not initiated, used `set_field()` before calling."));
        }
        Ok(self.m.minus(&BigUint::one()))
    }

    fn zero(&self) -> (r: Result<BigUint, Error>) {
        Ok(BigUint::zero())
    }

    fn copy(&mut self, wire: &BigUint) -> (r: Result<BigUint, Error>) {
        Ok(wire.clone())
    }

    fn constant(&mut self, val: BigUint) -> (r: Result<BigUint, Error>) {
        Ok(val)
    }

    fn assert_zero(&mut self, wire: &BigUint) -> (r: Result<(), Error>) {
        if wire.is_zero() {
            Ok(())
        } else {
            Err(Error::new("AssertZero failed"))
        }
    }

    fn add(&mut self, a: &BigUint, b: &BigUint) -> (r: Result<BigUint, Error>) {
        self.reduce(a.plus(b))
    }

    fn multiply(&mut self, a: &BigUint, b: &BigUint) -> (r: Result<BigUint, Error>) {
        self.reduce(a.times(b))
    }

    fn add_constant(&mut self, a: &BigUint, b: BigUint) -> (r: Result<BigUint, Error>) {
        self.reduce(a.plus(&b))
    }

    fn mul_constant(&mut self, a: &BigUint, b: BigUint) -> (r: Result<BigUint, Error>) {
        self.reduce(a.times(&b))
    }

    fn and(&mut self, a: &BigUint, b: &BigUint) -> (r: Result<BigUint, Error>) {
        self.reduce(a.bitand(b))
    }

    fn xor(&mut self, a: &BigUint, b: &BigUint) -> (r: Result<BigUint, Error>) {
        self.reduce(a.bitxor(b))
    }

    fn not(&mut self, a: &BigUint) -> (r: Result<BigUint, Error>) {
        Ok(
            if a.is_zero() {
                BigUint::one()
            } else {
                BigUint::zero()
            },
        )
    }

    fn instance(&mut self, val: BigUint) -> (r: Result<BigUint, Error>) {
        self.constant(val)
    }

    fn witness(&mut self, val: Option<BigUint>) -> (r: Result<BigUint, Error>) {
        match val {
            Some(val) => self.constant(val),
            None => Err(Error::new("Missing witness value for PlaintextBackend")),
        }
    }
}

} // verus!
