//! Unbounded natural numbers, kept as little-endian bytes.
//!
//! The arithmetic itself is done by the `num-bigint` crate. Each of the private
//! functions below hands it two numbers as bytes and takes the result back as
//! bytes.

use vstd::arithmetic::div_mod::lemma_mul_mod_noop;
use vstd::prelude::*;

verus! {

/// The number that a little-endian string of bytes stands for.
pub open spec fn le_value(bytes: Seq<u8>) -> nat
    decreases bytes.len(),
{
    if bytes.len() == 0 {
        0
    } else {
        bytes[0] as nat + 256 * le_value(bytes.drop_first())
    }
}

/// The shortest non-empty little-endian string of bytes that stands for `n`.
pub open spec fn le_bytes(n: nat) -> Seq<u8>
    decreases n,
{
    if n < 256 {
        seq![n as u8]
    } else {
        seq![(n % 256) as u8] + le_bytes(n / 256)
    }
}

/// The number whose binary digits are those set in both `a` and `b`.
pub open spec fn bits_and(a: nat, b: nat) -> nat
    decreases a,
{
    if a == 0 {
        0
    } else {
        (if a % 2 == 1 && b % 2 == 1 { 1nat } else { 0nat }) + 2 * bits_and(a / 2, b / 2)
    }
}

/// The number whose binary digits are those set in exactly one of `a` and `b`.
pub open spec fn bits_xor(a: nat, b: nat) -> nat
    decreases a + b,
{
    if a == 0 && b == 0 {
        0
    } else {
        (if a % 2 != b % 2 { 1nat } else { 0nat }) + 2 * bits_xor(a / 2, b / 2)
    }
}

/// The bytes of a number read back as that number.
pub proof fn lemma_value_of_bytes(n: nat)
    ensures
        le_value(le_bytes(n)) == n,
        le_bytes(n).len() > 0,
    decreases n,
{
    reveal_with_fuel(le_value, 2);
    if n < 256 {
        assert(le_bytes(n).drop_first() =~= Seq::empty());
    } else {
        lemma_value_of_bytes(n / 256);
        assert(le_bytes(n).drop_first() =~= le_bytes(n / 256));
    }
}

/// Zero bytes at the end of a little-endian string do not change its value.
pub proof fn lemma_trailing_zeros(bytes: Seq<u8>, zeros: nat)
    ensures
        le_value(bytes + Seq::new(zeros, |i: int| 0u8)) == le_value(bytes),
    decreases bytes.len() + zeros,
{
    let padding = Seq::new(zeros, |i: int| 0u8);
    let padded = bytes + padding;
    if bytes.len() > 0 {
        assert(padded.drop_first() =~= bytes.drop_first() + padding);
        lemma_trailing_zeros(bytes.drop_first(), zeros);
    } else if zeros > 0 {
        let shorter = Seq::new((zeros - 1) as nat, |i: int| 0u8);
        assert(padded.drop_first() =~= Seq::<u8>::empty() + shorter);
        lemma_trailing_zeros(Seq::empty(), (zeros - 1) as nat);
    } else {
        assert(padded =~= bytes);
    }
}

/// The last binary digit of `xor` is that of the sum, and the last one of `and` is that
/// of the product.
pub proof fn lemma_last_bits(a: nat, b: nat)
    ensures
        bits_xor(a, b) % 2 == (a + b) % 2,
        bits_and(a, b) % 2 == (a * b) % 2,
{
    let q = bits_and(a / 2, b / 2);
    if a % 2 == 0 || b % 2 == 0 {
        assert((a * b) % 2 == 0) by {
            lemma_mul_mod_noop(a as int, b as int, 2);
            assert((a % 2) * (b % 2) == 0) by (nonlinear_arith)
                requires
                    a % 2 == 0 || b % 2 == 0,
            ;
        }
    } else {
        lemma_mul_mod_noop(a as int, b as int, 2);
    }
}

/// `num_bigint::BigUint::from_bytes_le`, then `to_bytes_le`: the shortest bytes
/// of the number that the given bytes stand for, a single zero byte for zero.
#[verifier::external_body]
fn shortest_bytes(a: &[u8]) -> (r: Vec<u8>)
    ensures
        r@ == le_bytes(le_value(a@)),
{
    num_bigint::BigUint::from_bytes_le(a).to_bytes_le()
}

/// `+` on `num_bigint::BigUint`: the sum, in its shortest bytes.
#[verifier::external_body]
fn sum_of(a: &[u8], b: &[u8]) -> (r: Vec<u8>)
    ensures
        r@ == le_bytes(le_value(a@) + le_value(b@)),
{
    (num_bigint::BigUint::from_bytes_le(a) + num_bigint::BigUint::from_bytes_le(b)).to_bytes_le()
}

/// `*` on `num_bigint::BigUint`: the product, in its shortest bytes.
#[verifier::external_body]
fn product_of(a: &[u8], b: &[u8]) -> (r: Vec<u8>)
    ensures
        r@ == le_bytes(le_value(a@) * le_value(b@)),
{
    (num_bigint::BigUint::from_bytes_le(a) * num_bigint::BigUint::from_bytes_le(b)).to_bytes_le()
}

/// `-` on `num_bigint::BigUint`: the difference, in its shortest bytes. It
/// panics where the difference would be negative.
#[verifier::external_body]
fn difference_of(a: &[u8], b: &[u8]) -> (r: Vec<u8>)
    requires
        le_value(b@) <= le_value(a@),
    ensures
        r@ == le_bytes((le_value(a@) - le_value(b@)) as nat),
{
    (num_bigint::BigUint::from_bytes_le(a) - num_bigint::BigUint::from_bytes_le(b)).to_bytes_le()
}

/// `/` on `num_bigint::BigUint`: the quotient rounded down, in its shortest
/// bytes. It panics on a zero divisor.
#[verifier::external_body]
fn quotient_of(a: &[u8], b: &[u8]) -> (r: Vec<u8>)
    requires
        le_value(b@) > 0,
    ensures
        r@ == le_bytes(le_value(a@) / le_value(b@)),
{
    (num_bigint::BigUint::from_bytes_le(a) / num_bigint::BigUint::from_bytes_le(b)).to_bytes_le()
}

/// `%` on `num_bigint::BigUint`: the remainder, in its shortest bytes. It panics
/// on a zero divisor.
#[verifier::external_body]
fn remainder_of(a: &[u8], b: &[u8]) -> (r: Vec<u8>)
    requires
        le_value(b@) > 0,
    ensures
        r@ == le_bytes(le_value(a@) % le_value(b@)),
{
    (num_bigint::BigUint::from_bytes_le(a) % num_bigint::BigUint::from_bytes_le(b)).to_bytes_le()
}

/// `&` on `num_bigint::BigUint`: the common binary digits, in shortest bytes.
#[verifier::external_body]
fn conjunction_of(a: &[u8], b: &[u8]) -> (r: Vec<u8>)
    ensures
        r@ == le_bytes(bits_and(le_value(a@), le_value(b@))),
{
    (num_bigint::BigUint::from_bytes_le(a) & num_bigint::BigUint::from_bytes_le(b)).to_bytes_le()
}

/// `^` on `num_bigint::BigUint`: the differing binary digits, in shortest bytes.
#[verifier::external_body]
fn exclusive_disjunction_of(a: &[u8], b: &[u8]) -> (r: Vec<u8>)
    ensures
        r@ == le_bytes(bits_xor(le_value(a@), le_value(b@))),
{
    (num_bigint::BigUint::from_bytes_le(a) ^ num_bigint::BigUint::from_bytes_le(b)).to_bytes_le()
}

/// `>>` on `num_bigint::BigUint`, by one: half of the number, rounded down, in
/// its shortest bytes.
#[verifier::external_body]
fn half_of(a: &[u8]) -> (r: Vec<u8>)
    ensures
        r@ == le_bytes(le_value(a@) / 2),
{
    (num_bigint::BigUint::from_bytes_le(a) >> 1u32).to_bytes_le()
}

/// An unbounded natural number.
#[derive(Debug)]
pub struct BigUint {
    bytes: Vec<u8>,
}

impl View for BigUint {
    type V = nat;

    closed spec fn view(&self) -> nat {
        le_value(self.bytes@)
    }
}

impl Clone for BigUint {
    fn clone(&self) -> (r: Self)
        ensures
            r@ == self@,
    {
        proof {
            use_type_invariant(self);
        }
        let bytes = self.bytes.clone();
        assert(bytes@ =~= self.bytes@);
        BigUint { bytes }
    }
}

impl BigUint {
    #[verifier::type_invariant]
    spec fn shortest(self) -> bool {
        self.bytes@ == le_bytes(le_value(self.bytes@))
    }

    /// Wraps bytes that are already the shortest ones of `n`.
    fn wrap(bytes: Vec<u8>, Ghost(n): Ghost<nat>) -> (r: Self)
        requires
            bytes@ == le_bytes(n),
        ensures
            r@ == n,
    {
        proof {
            lemma_value_of_bytes(n);
        }
        BigUint { bytes }
    }

    /// The number zero.
    pub fn zero() -> (r: Self)
        ensures
            r@ == 0,
    {
        let bytes: Vec<u8> = vec![0u8];
        assert(bytes@ =~= le_bytes(0));
        BigUint::wrap(bytes, Ghost(0))
    }

    /// The number one.
    pub fn one() -> (r: Self)
        ensures
            r@ == 1,
    {
        let bytes: Vec<u8> = vec![1u8];
        assert(bytes@ =~= le_bytes(1));
        BigUint::wrap(bytes, Ghost(1))
    }

    /// Whether this is the number zero.
    pub fn is_zero(&self) -> (r: bool)
        ensures
            r == (self@ == 0),
    {
        proof {
            use_type_invariant(self);
            lemma_value_of_bytes(self@ / 256);
        }
        self.bytes.len() == 1 && self.bytes[0] == 0
    }

    /// Whether this is the number one.
    pub fn is_one(&self) -> (r: bool)
        ensures
            r == (self@ == 1),
    {
        proof {
            use_type_invariant(self);
            lemma_value_of_bytes(self@ / 256);
        }
        self.bytes.len() == 1 && self.bytes[0] == 1
    }

    /// Whether the number is odd.
    pub fn is_odd(&self) -> (r: bool)
        ensures
            r == (self@ % 2 == 1),
    {
        proof {
            use_type_invariant(self);
            lemma_value_of_bytes(self@);
        }
        self.bytes[0] % 2 == 1
    }

    /// Reads a little-endian string of bytes; the empty one stands for zero.
    pub fn from_bytes_le(bytes: &[u8]) -> (r: Self)
        ensures
            r@ == le_value(bytes@),
    {
        BigUint::wrap(shortest_bytes(bytes), Ghost(le_value(bytes@)))
    }

    /// The shortest little-endian bytes; a single zero byte for zero.
    pub fn to_bytes_le(&self) -> (r: Vec<u8>)
        ensures
            r@ == le_bytes(self@),
    {
        proof {
            use_type_invariant(self);
        }
        let bytes = self.bytes.clone();
        assert(bytes@ =~= self.bytes@);
        bytes
    }

    /// The sum.
    pub fn plus(&self, other: &Self) -> (r: Self)
        ensures
            r@ == self@ + other@,
    {
        BigUint::wrap(sum_of(self.bytes.as_slice(), other.bytes.as_slice()), Ghost(self@ + other@))
    }

    /// The product.
    pub fn times(&self, other: &Self) -> (r: Self)
        ensures
            r@ == self@ * other@,
    {
        BigUint::wrap(
            product_of(self.bytes.as_slice(), other.bytes.as_slice()),
            Ghost(self@ * other@),
        )
    }

    /// The difference with a number that is not larger.
    pub fn minus(&self, other: &Self) -> (r: Self)
        requires
            other@ <= self@,
        ensures
            r@ == self@ - other@,
    {
        BigUint::wrap(
            difference_of(self.bytes.as_slice(), other.bytes.as_slice()),
            Ghost((self@ - other@) as nat),
        )
    }

    /// The quotient, rounded down.
    pub fn divided_by(&self, other: &Self) -> (r: Self)
        requires
            other@ > 0,
        ensures
            r@ == self@ / other@,
    {
        BigUint::wrap(
            quotient_of(self.bytes.as_slice(), other.bytes.as_slice()),
            Ghost(self@ / other@),
        )
    }

    /// The remainder of the division.
    pub fn modulo(&self, other: &Self) -> (r: Self)
        requires
            other@ > 0,
        ensures
            r@ == self@ % other@,
    {
        BigUint::wrap(
            remainder_of(self.bytes.as_slice(), other.bytes.as_slice()),
            Ghost(self@ % other@),
        )
    }

    /// The binary digits that both numbers have.
    pub fn bitand(&self, other: &Self) -> (r: Self)
        ensures
            r@ == bits_and(self@, other@),
    {
        BigUint::wrap(
            conjunction_of(self.bytes.as_slice(), other.bytes.as_slice()),
            Ghost(bits_and(self@, other@)),
        )
    }

    /// The binary digits that exactly one of the numbers has.
    pub fn bitxor(&self, other: &Self) -> (r: Self)
        ensures
            r@ == bits_xor(self@, other@),
    {
        BigUint::wrap(
            exclusive_disjunction_of(self.bytes.as_slice(), other.bytes.as_slice()),
            Ghost(bits_xor(self@, other@)),
        )
    }

    /// Half of the number, rounded down.
    pub fn half(&self) -> (r: Self)
        ensures
            r@ == self@ / 2,
    {
        BigUint::wrap(half_of(self.bytes.as_slice()), Ghost(self@ / 2))
    }
}

} // verus!
