//! What powers and switches come to in plaintext.

use crate::consumers::plaintext::{plain_state, PlaintextBackend};
use crate::consumers::semantics::{
    asserted, branch_weight, nested_weight, power, weight_of_case, weighted_sum, Env, Machine,
    Scope, Text,
};
use crate::number::{bits_and, bits_xor, le_value, lemma_last_bits};
use crate::prime::{little_theorem, prime};
use vstd::arithmetic::div_mod::{
    lemma_add_mod_noop, lemma_mod_equivalence, lemma_mod_twice, lemma_mul_mod_noop, lemma_small_mod,
};
use vstd::arithmetic::power::{lemma_pow1, lemma_pow_adds, pow};
use vstd::prelude::*;

verus! {

/// Raising a wire to a power, in plaintext, is modular exponentiation; a value to the
/// power of one is left as it is.
pub proof fn power_is_modular(m: nat, x: nat, exponent: nat)
    requires
        m > 0,
        exponent > 0,
    ensures
        pow(x as int, exponent) >= 0,
        power::<PlaintextBackend>(plain_state(m), false, x, exponent) == (
            plain_state(m),
            Ok::<nat, Text>(
                if exponent == 1 {
                    x
                } else {
                    pow(x as int, exponent) as nat % m
                },
            ),
        ),
    decreases exponent,
{
    if exponent == 1 {
        lemma_pow1(x as int);
    } else {
        let half = exponent / 2;
        power_is_modular(m, x, half);
        let root = power::<PlaintextBackend>(plain_state(m), false, x, half).1->Ok_0;
        let y = pow(x as int, half);
        assert(root % m == y as nat % m) by {
            if half == 1 {
                lemma_pow1(x as int);
            } else {
                lemma_mod_twice(y, m as int);
            }
        }
        lemma_mul_mod_noop(root as int, root as int, m as int);
        lemma_mul_mod_noop(y, y, m as int);
        lemma_pow_adds(x as int, half, half);
        let square = y * y;
        assert(square >= 0) by (nonlinear_arith)
            requires
                square == y * y,
        ;
        assert((root * root) % m == square as nat % m);
        if exponent % 2 == 1 {
            let q = square as nat % m;
            lemma_pow_adds(x as int, half + half, 1);
            lemma_pow1(x as int);
            lemma_mul_mod_noop(q as int, x as int, m as int);
            lemma_mul_mod_noop(square, x as int, m as int);
            lemma_mod_twice(square, m as int);
            assert(square * x >= 0) by (nonlinear_arith)
                requires
                    square >= 0,
            ;
            assert(half + half + 1 == exponent);
            assert((q * x) % m == (square * x) as nat % m);
        } else {
            assert(half + half == exponent);
        }
    }
}

/// The opposite of a number is zero minus that number, modulo `m`.
proof fn lemma_opposite(x: nat, z: nat, m: nat)
    requires
        m > 0,
    ensures
        (x + (z * (m - 1)) as nat % m) % m == 0 <==> x % m == z % m,
{
    let y = z * (m - 1);
    lemma_add_mod_noop(x as int, y, m as int);
    lemma_add_mod_noop(x as int, y % (m as int), m as int);
    lemma_mod_twice(y, m as int);
    assert(x + y == m * z + (x - z)) by (nonlinear_arith)
        requires
            y == z * (m - 1),
    ;
    vstd::arithmetic::div_mod::lemma_mod_multiples_vanish(z as int, x - z, m as int);
    lemma_mod_equivalence(x as int, z as int, m as int);
    assert(y >= 0) by (nonlinear_arith)
        requires
            y == z * (m - 1),
            m > 0,
    ;
}

/// The weight of a branch in an arithmetic circuit over a prime field is one where its
/// case is the condition, else zero.
proof fn lemma_weight(p: nat, x: nat, y: nat)
    requires
        prime(p),
    ensures
        weight_of_case::<PlaintextBackend>(plain_state(p), p, false, x, y) == (
            plain_state(p),
            Ok::<nat, Text>(
                if x % p == y % p {
                    1
                } else {
                    0
                },
            ),
        ),
{
    let n = (p - 1) as nat;
    let minus = (y * n) % p;
    lemma_opposite(x, y, p);
    assert((y * (p - 1)) as nat == y * n);
    let base = (x + minus) % p;
    lemma_small_mod(1, p);
    lemma_small_mod(n, p);
    lemma_small_mod(base, p);
    lemma_small_mod(0, p);
    power_is_modular(p, base, n);
    let raised = power::<PlaintextBackend>(plain_state(p), false, base, n).1->Ok_0;
    if base == 0 {
        assert(raised == 0) by {
            if n > 1 {
                lemma_zero_power(n);
            }
        }
        assert(raised * n == 0);
        assert((0 + 1nat) % p == 1);
    } else {
        little_theorem(p, base);
        assert(raised == 1) by {
            if n == 1 {
                lemma_pow1(base as int);
            }
        }
        assert(raised * n == n);
        assert(n + 1 == p);
        assert(p % p == 0);
    }
}

proof fn lemma_zero_power(n: nat)
    requires
        n > 0,
    ensures
        pow(0, n) == 0,
{
    lemma_pow_adds(0, 1, (n - 1) as nat);
    lemma_pow1(0);
    assert(0 * pow(0, (n - 1) as nat) == 0);
}

/// A branch of a switch weighs one, in plaintext, where its case is the condition, and
/// zero where it is not. This holds in arithmetic circuits over a prime field and in
/// Boolean circuits over the field of two.
pub proof fn branch_is_one_or_zero(p: nat, is_boolean: bool, case: Seq<u8>, condition: nat)
    requires
        prime(p),
        is_boolean ==> p == 2,
    ensures
        branch_weight::<PlaintextBackend>(plain_state(p), p, is_boolean, case, condition) == (
            plain_state(p),
            Ok::<nat, Text>(
                if le_value(case) % p == condition % p {
                    1
                } else {
                    0
                },
            ),
        ),
{
    if is_boolean {
        lemma_last_bits(le_value(case), condition);
    } else {
        lemma_weight(p, le_value(case), condition);
    }
}

/// A branch inside a branch that is not selected weighs nothing.
pub proof fn unselected_stays_unselected(
    p: nat,
    env: Env,
    case: Seq<u8>,
    condition: nat,
)
    requires
        p > 0,
        nested_weight::<PlaintextBackend>(plain_state(p), env, Some(0), case, condition).1 is Ok,
    ensures
        nested_weight::<PlaintextBackend>(plain_state(p), env, Some(0), case, condition).1 == Ok::<
            nat,
            Text,
        >(0),
{
    crate::consumers::simulation::plain_weight(
        p,
        env.modulus,
        env.is_boolean,
        le_value(case),
        condition,
    );
    let own = branch_weight::<PlaintextBackend>(
        plain_state(p),
        env.modulus,
        env.is_boolean,
        case,
        condition,
    ).1->Ok_0;
    lemma_small_mod(0, p);
    assert(0 * own == 0);
}

/// No assertion refuses a wire in a branch that is not selected.
pub proof fn unselected_assertion_passes(p: nat, env: Env, m: Machine, id: u64)
    requires
        p > 0,
        m.backend == plain_state(p),
        m.scope.contains_key(id),
    ensures
        asserted::<PlaintextBackend>(env, Some(0), m, id) == (m, Ok::<(), Text>(())),
{
    lemma_small_mod(0, p);
    assert(0 * m.scope[id] == 0);
}

/// An assertion in the selected branch refuses a wire just where it is not zero modulo
/// the characteristic.
pub proof fn selected_assertion_checks(p: nat, env: Env, m: Machine, id: u64)
    requires
        p > 1,
        env.is_boolean ==> p == 2,
        m.backend == plain_state(p),
        m.scope.contains_key(id),
    ensures
        asserted::<PlaintextBackend>(env, Some(1), m, id).1 is Ok <==> m.scope[id] % p == 0,
{
    let x = m.scope[id];
    assert(1 * x == x);
    lemma_last_bits(1, x);
}

/// The sum of the values of a wire over the branches from the `k`-th on, each times its
/// weight.
pub open spec fn total(scopes: Seq<Scope>, weights: Seq<nat>, id: u64, k: nat) -> nat
    decreases scopes.len() - k,
{
    if k >= scopes.len() {
        0
    } else {
        scopes[k as int][id] * weights[k as int] + total(scopes, weights, id, k + 1)
    }
}

pub(crate) proof fn lemma_total(
    p: nat,
    is_boolean: bool,
    scopes: Seq<Scope>,
    weights: Seq<nat>,
    id: u64,
    k: nat,
    sum: nat,
)
    requires
        p > 0,
        is_boolean ==> p == 2,
        scopes.len() == weights.len(),
        forall|i: int| 0 <= i < scopes.len() ==> (#[trigger] scopes[i]).contains_key(id),
        k < scopes.len() || sum < p,
    ensures
        weighted_sum::<PlaintextBackend>(
            plain_state(p),
            is_boolean,
            scopes,
            weights,
            id,
            k,
            Ok(sum),
        ) == (
            plain_state(p),
            Ok::<nat, Text>((sum + total(scopes, weights, id, k)) % p),
        ),
    decreases scopes.len() - k,
{
    if k >= scopes.len() {
        lemma_small_mod(sum, p);
    } else {
        assert(scopes[k as int].contains_key(id));
        let v = scopes[k as int][id];
        let w = weights[k as int];
        let rest = total(scopes, weights, id, k + 1);
        let part = if is_boolean {
            bits_and(v, w) % p
        } else {
            (v * w) % p
        };
        let next = if is_boolean {
            bits_xor(sum, part) % p
        } else {
            (sum + part) % p
        };
        lemma_last_bits(v, w);
        lemma_last_bits(sum, part);
        assert(part == (v * w) % p);
        assert(next == (sum + part) % p);
        lemma_total(p, is_boolean, scopes, weights, id, k + 1, next);
        lemma_add_mod_noop(sum as int, (v * w) as int, p as int);
        lemma_add_mod_noop(sum as int, part as int, p as int);
        lemma_mod_twice((v * w) as int, p as int);
        assert(next == (sum + v * w) % p);
        lemma_add_mod_noop(next as int, rest as int, p as int);
        lemma_add_mod_noop((sum + v * w) as int, rest as int, p as int);
        lemma_mod_twice((sum + v * w) as int, p as int);
    }
}

/// Where one branch is selected and the others are not, each output wire of a switch
/// gets, modulo the characteristic, the value that it has in the selected branch.
pub proof fn switch_gives_selected(
    p: nat,
    is_boolean: bool,
    scopes: Seq<Scope>,
    weights: Seq<nat>,
    selected: int,
    id: u64,
)
    requires
        p > 1,
        is_boolean ==> p == 2,
        scopes.len() == weights.len(),
        0 <= selected < scopes.len(),
        forall|i: int|
            0 <= i < weights.len() ==> #[trigger] weights[i] == (if i == selected {
                1nat
            } else {
                0nat
            }),
        forall|i: int| 0 <= i < scopes.len() ==> (#[trigger] scopes[i]).contains_key(id),
    ensures
        weighted_sum::<PlaintextBackend>(
            plain_state(p),
            is_boolean,
            scopes,
            weights,
            id,
            0,
            Ok(0),
        ) == (plain_state(p), Ok::<nat, Text>(scopes[selected][id] % p)),
{
    lemma_total(p, is_boolean, scopes, weights, id, 0, 0);
    lemma_selected(scopes, weights, selected, id, 0);
}

pub(crate) proof fn lemma_selected(
    scopes: Seq<Scope>,
    weights: Seq<nat>,
    selected: int,
    id: u64,
    k: nat,
)
    requires
        scopes.len() == weights.len(),
        0 <= selected < scopes.len(),
        forall|i: int|
            0 <= i < weights.len() ==> #[trigger] weights[i] == (if i == selected {
                1nat
            } else {
                0nat
            }),
    ensures
        total(scopes, weights, id, k) == (if k <= selected {
            scopes[selected][id]
        } else {
            0
        }),
    decreases scopes.len() - k,
{
    if k < scopes.len() {
        lemma_selected(scopes, weights, selected, id, k + 1);
        let v = scopes[k as int][id];
        assert(v * 1 == v && v * 0 == 0);
        assert(weights[k as int] == if k == selected {
            1nat
        } else {
            0nat
        });
    }
}

} // verus!
