//! The backend that writes a circuit again, with its functions inlined, its loops
//! unrolled and its switches multiplexed.

use crate::consumers::backend::{answered, Answer, BackendState, Request, ZKBackend};
use crate::consumers::plaintext::no_modulus_text;
use crate::error::Error;
use crate::number::{le_bytes, le_value, BigUint};
use crate::producers::build_gates::{BuildGate, BuildGateV, NO_OUTPUT};
use crate::producers::builder::{empty_statement, GateBuilder, StatementV};
use crate::producers::sink::{Sink, SinkV};
use crate::structs::header::{Header, HeaderV, IR_VERSION};
use crate::structs::relation::{ARITH, BOOL, SIMPLE};
use crate::structs::wire::{to_value, WireId};
use vstd::prelude::*;
use vstd::string::*;

verus! {

pub open spec fn not_ready_text() -> Seq<char> {
    "Builder has not been properly initialized."@
}

pub open spec fn no_wire_text() -> Seq<char> {
    "No wire is left."@
}

/// The number that stands for a backend that waits for its field.
pub const WAITING: u64 = 0;

/// The number that stands for a backend that writes gates.
pub const WRITING: u64 = 1;

/// The number that stands for a backend that was interrupted.
pub const SPENT: u64 = 2;

/// The state of a flattener: its stage, the characteristic of its field, which is
/// zero while there is none, the requests that it has written, and what its sink had got
/// before.
pub open spec fn flattener_state(
    stage: u64,
    modulus: nat,
    requests: Seq<Request>,
    given: Option<SinkV>,
) -> BackendState {
    BackendState { settings: seq![stage as nat, modulus], requests, given }
}

/// A request as a gate, where it is one for a gate.
pub open spec fn gate_of(request: Request) -> Option<BuildGateV> {
    match request {
        Request::Copy(a) => Some(BuildGateV::Copy(a as u64)),
        Request::Constant(c) => Some(BuildGateV::Constant(le_bytes(c))),
        Request::AssertZero(a) => Some(BuildGateV::AssertZero(a as u64)),
        Request::Add(a, b) => Some(BuildGateV::Add(a as u64, b as u64)),
        Request::Multiply(a, b) => Some(BuildGateV::Mul(a as u64, b as u64)),
        Request::AddConstant(a, c) => Some(BuildGateV::AddConstant(a as u64, le_bytes(c))),
        Request::MulConstant(a, c) => Some(BuildGateV::MulConstant(a as u64, le_bytes(c))),
        Request::And(a, b) => Some(BuildGateV::And(a as u64, b as u64)),
        Request::Xor(a, b) => Some(BuildGateV::Xor(a as u64, b as u64)),
        Request::Not(a) => Some(BuildGateV::Not(a as u64)),
        Request::Instance(x) => Some(BuildGateV::Instance(Some(le_bytes(x)))),
        Request::Witness(None) => Some(BuildGateV::Witness(None)),
        Request::Witness(Some(x)) => Some(BuildGateV::Witness(Some(le_bytes(x)))),
        _ => None,
    }
}

/// The statement that requests are written as. The first one says what its field
/// is, and each of the others is a gate.
pub open spec fn statement_of(requests: Seq<Request>) -> StatementV
    decreases requests.len(),
{
    if requests.len() <= 1 {
        match requests[0] {
            Request::SetField { modulus, degree, is_boolean } => empty_statement(
                HeaderV {
                    version: IR_VERSION@,
                    field_characteristic: modulus,
                    field_degree: degree,
                },
                if is_boolean {
                    BOOL
                } else {
                    ARITH
                },
                SIMPLE,
            ),
            _ => arbitrary(),
        }
    } else {
        statement_of(requests.drop_last()).with_gate(gate_of(requests.last())->Some_0)
    }
}

/// The answers of a flattener.
pub open spec fn flattener_answer(state: BackendState, request: Request) -> Answer {
    match request {
        Request::SetField { modulus, degree, is_boolean } => if state.settings[0] == SPENT {
            Err(not_ready_text())
        } else {
            Ok(0)
        },
        Request::One => Ok(1),
        Request::MinusOne => if state.settings[1] == 0 {
            Err(no_modulus_text())
        } else {
            Ok((state.settings[1] - 1) as nat)
        },
        Request::Zero => Ok(0),
        _ => {
            let statement = statement_of(state.requests);
            if state.settings[0] != WRITING {
                Err(not_ready_text())
            } else if request is AssertZero {
                Ok(0)
            } else if statement.free_id >= NO_OUTPUT {
                Err(no_wire_text())
            } else {
                Ok(statement.free_id)
            }
        },
    }
}

/// What a flattener has written after a request: one more gate, unless it was
/// refused.
pub open spec fn flattener_after(state: BackendState, request: Request) -> BackendState {
    match request {
        Request::SetField { modulus, degree, is_boolean } => if state.settings[0] == WAITING {
            flattener_state(WRITING, le_value(modulus), seq![request], state.given)
        } else {
            state
        },
        _ => if gate_of(request) is Some && flattener_answer(state, request) is Ok {
            flattener_state(
                WRITING,
                state.settings[1],
                state.requests.push(request),
                state.given,
            )
        } else {
            state
        },
    }
}

/// Writes every request as a gate to a sink.
pub struct IRFlattener<S: Sink> {
    sink: Option<S>,
    b: Option<GateBuilder<S>>,
    modulus: BigUint,
    log: Ghost<Seq<Request>>,
    origin: Ghost<SinkV>,
}

impl<S: Sink> IRFlattener<S> {
    #[verifier::type_invariant]
    spec fn wf(self) -> bool {
        &&& self.b matches Some(b) ==> {
            &&& b.wf()
            &&& b.sink_before() == self.origin@
            &&& self.log@.len() > 0
            &&& self.log@[0] is SetField
            &&& b@ == statement_of(self.log@)
        }
        &&& self.sink matches Some(sink) ==> sink.received() == self.origin@
    }

    /// A flattener that writes to a sink.
    pub fn new(sink: S) -> (r: Self)
        ensures
            r.state() == flattener_state(WAITING, 0, Seq::empty(), Some(sink.received())),
    {
        IRFlattener {
            origin: Ghost(sink.received()),
            log: Ghost(Seq::empty()),
            sink: Some(sink),
            b: None,
            modulus: BigUint::zero(),
        }
    }

    /// Sends what is left and gives the sink back.
    pub fn finish(self) -> (r: S)
        requires
            self.state().settings[0] == WRITING,
        ensures
            self.state().given is Some,
            r.received() == statement_of(self.state().requests).sent_to(
                self.state().given->Some_0,
            ),
    {
        proof {
            use_type_invariant(&self);
        }
        self.b.unwrap().finish()
    }

    /// Writes a gate and returns its output wire.
    fn create_gate(&mut self, gate: BuildGate, Ghost(request): Ghost<Request>) -> (r: Result<
        WireId,
        Error,
    >)
        requires
            gate_of(request) == Some(gate@),
        ensures
            request is AssertZero ==> answered(r, 0) == flattener_answer(
                old(self).state(),
                request,
            ),
            !(request is AssertZero) ==> answered(r, r->Ok_0 as nat) == flattener_answer(
                old(self).state(),
                request,
            ),
            final(self).state() == flattener_after(old(self).state(), request),
    {
        proof {
            use_type_invariant(&*self);
        }
        let mut taken: Option<GateBuilder<S>> = None;
        std::mem::swap(&mut taken, &mut self.b);
        match taken {
            None => Err(Error::new("Builder has not been properly initialized.")),
            Some(b) => {
                let mut b = b;
                if gate.has_output() && b.wires_used() == NO_OUTPUT {
                    self.b = Some(b);
                    return Err(Error::new("No wire is left."));
                }
                let r = b.create_gate(gate);
                proof {
                    assert(self.log@.push(request).drop_last() =~= self.log@);
                }
                self.log = Ghost(self.log@.push(request));
                self.b = Some(b);
                Ok(r)
            },
        }
    }
}

impl<S: Sink> ZKBackend for IRFlattener<S> {
    type Wire = WireId;

    type FieldElement = BigUint;

    open spec fn wire(w: WireId) -> nat {
        w as nat
    }

    open spec fn element(x: BigUint) -> nat {
        x@
    }

    open spec fn parse(bytes: Seq<u8>) -> Answer {
        Ok(le_value(bytes))
    }

    closed spec fn state(&self) -> BackendState {
        if self.b is Some {
            flattener_state(WRITING, self.modulus@, self.log@, Some(self.origin@))
        } else if self.sink is Some {
            flattener_state(WAITING, self.modulus@, Seq::empty(), Some(self.origin@))
        } else {
            flattener_state(SPENT, self.modulus@, Seq::empty(), Some(self.origin@))
        }
    }

    open spec fn answer(state: BackendState, request: Request) -> Answer {
        flattener_answer(state, request)
    }

    open spec fn after(state: BackendState, request: Request) -> BackendState {
        flattener_after(state, request)
    }

    proof fn clone_is_same(x: BigUint, y: BigUint) {
        assert(call_ensures(BigUint::clone, (&x,), y) || x == y);
    }

    fn from_bytes_le(val: &[u8]) -> (r: Result<BigUint, Error>) {
        Ok(BigUint::from_bytes_le(val))
    }

    fn set_field(&mut self, modulus: &[u8], degree: u32, is_boolean: bool) -> (r: Result<
        (),
        Error,
    >) {
        proof {
            use_type_invariant(&*self);
        }
        if self.b.is_some() {
            return Ok(());
        }
        let mut taken: Option<S> = None;
        std::mem::swap(&mut taken, &mut self.sink);
        match taken {
            None => Err(Error::new("Builder has not been properly initialized.")),
            Some(sink) => {
                let header = Header {
                    version: IR_VERSION.to_owned(),
                    field_characteristic: to_value(modulus),
                    field_degree: degree,
                };
                self.modulus = BigUint::from_bytes_le(modulus);
                let ghost first = Request::SetField { modulus: modulus@, degree, is_boolean };
                self.log = Ghost(Seq::empty().push(first));
                assert(self.log@ =~= seq![first]);
                let b = GateBuilder::new(
                    sink,
                    header,
                    if is_boolean {
                        BOOL
                    } else {
                        ARITH
                    },
                    SIMPLE,
                );
                self.b = Some(b);
                Ok(())
            },
        }
    }

    fn one(&self) -> (r: Result<BigUint, Error>) {
        Ok(BigUint::one())
    }

    fn minus_one(&self) -> (r: Result<BigUint, Error>) {
        if self.modulus.is_zero() {
            return Err(Error::new("Modulus is not initiated, used `set_field()` before calling."));
        }
        Ok(self.modulus.minus(&BigUint::one()))
    }

    fn zero(&self) -> (r: Result<BigUint, Error>) {
        Ok(BigUint::zero())
    }

    fn copy(&mut self, wire: &WireId) -> (r: Result<WireId, Error>) {
        self.create_gate(BuildGate::Copy(*wire), Ghost(Request::Copy(*wire as nat)))
    }

    fn constant(&mut self, val: BigUint) -> (r: Result<WireId, Error>) {
        self.create_gate(BuildGate::Constant(val.to_bytes_le()), Ghost(Request::Constant(val@)))
    }

    fn assert_zero(&mut self, wire: &WireId) -> (r: Result<(), Error>) {
        match self.create_gate(
            BuildGate::AssertZero(*wire),
            Ghost(Request::AssertZero(*wire as nat)),
        ) {
            Err(e) => Err(e),
            Ok(_) => Ok(()),
        }
    }

    fn add(&mut self, a: &WireId, b: &WireId) -> (r: Result<WireId, Error>) {
        self.create_gate(BuildGate::Add(*a, *b), Ghost(Request::Add(*a as nat, *b as nat)))
    }

    fn multiply(&mut self, a: &WireId, b: &WireId) -> (r: Result<WireId, Error>) {
        self.create_gate(BuildGate::Mul(*a, *b), Ghost(Request::Multiply(*a as nat, *b as nat)))
    }

    fn add_constant(&mut self, a: &WireId, b: BigUint) -> (r: Result<WireId, Error>) {
        self.create_gate(
            BuildGate::AddConstant(*a, b.to_bytes_le()),
            Ghost(Request::AddConstant(*a as nat, b@)),
        )
    }

    fn mul_constant(&mut self, a: &WireId, b: BigUint) -> (r: Result<WireId, Error>) {
        self.create_gate(
            BuildGate::MulConstant(*a, b.to_bytes_le()),
            Ghost(Request::MulConstant(*a as nat, b@)),
        )
    }

    fn and(&mut self, a: &WireId, b: &WireId) -> (r: Result<WireId, Error>) {
        self.create_gate(BuildGate::And(*a, *b), Ghost(Request::And(*a as nat, *b as nat)))
    }

    fn xor(&mut self, a: &WireId, b: &WireId) -> (r: Result<WireId, Error>) {
        self.create_gate(BuildGate::Xor(*a, *b), Ghost(Request::Xor(*a as nat, *b as nat)))
    }

    fn not(&mut self, a: &WireId) -> (r: Result<WireId, Error>) {
        self.create_gate(BuildGate::Not(*a), Ghost(Request::Not(*a as nat)))
    }

    fn instance(&mut self, val: BigUint) -> (r: Result<WireId, Error>) {
        self.create_gate(
            BuildGate::Instance(Some(val.to_bytes_le())),
            Ghost(Request::Instance(val@)),
        )
    }

    fn witness(&mut self, val: Option<BigUint>) -> (r: Result<WireId, Error>) {
        match val {
            None => self.create_gate(BuildGate::Witness(None), Ghost(Request::Witness(None))),
            Some(v) => self.create_gate(
                BuildGate::Witness(Some(v.to_bytes_le())),
                Ghost(Request::Witness(Some(v@))),
            ),
        }
    }
}

} // verus!
