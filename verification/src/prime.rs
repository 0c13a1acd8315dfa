//! Prime numbers, and the theorem that weights of branches rest on.

use vstd::arithmetic::div_mod::{
    lemma_fundamental_div_mod, lemma_mod_equivalence, lemma_mod_multiples_vanish, lemma_mod_twice,
    lemma_mul_mod_noop, lemma_small_mod,
};
use vstd::arithmetic::power::{lemma_pow0, lemma_pow1, lemma_pow_adds, pow};
use vstd::prelude::*;

verus! {

/// Whether a number is prime: it has no divisor but one and itself.
pub open spec fn prime(p: nat) -> bool {
    p > 1 && forall|d: nat| 1 < d < p ==> #[trigger] (p % d) != 0
}

/// Whether a number divides another one.
pub open spec fn divides(p: nat, n: int) -> bool {
    n % (p as int) == 0
}

proof fn lemma_multiple(p: nat, n: int, k: int)
    requires
        p > 0,
        divides(p, n),
    ensures
        divides(p, n * k),
{
    lemma_mul_mod_noop(n, k, p as int);
    assert((n % (p as int)) * (k % (p as int)) == 0) by (nonlinear_arith)
        requires
            n % (p as int) == 0,
    ;
    lemma_small_mod(0, p);
}

/// A prime that divides a product, but not its first factor, which is smaller than the
/// prime, divides the second one.
proof fn lemma_smaller_factor(p: nat, a: nat, b: int)
    requires
        prime(p),
        0 < a < p,
        divides(p, a * b),
    ensures
        divides(p, b),
    decreases a,
{
    if a == 1 {
        assert(a * b == b);
    } else {
        let q = (p / a) as int;
        let r = p % a;
        assert(r != 0);
        lemma_fundamental_div_mod(p as int, a as int);
        assert(r * b == p * b - (a * b) * q) by (nonlinear_arith)
            requires
                p == a * q + r,
        ;
        lemma_multiple(p, a * b, q);
        let n = (a * b) * q;
        lemma_mod_multiples_vanish(b, -n, p as int);
        assert((p * b - n) % (p as int) == (-n) % (p as int));
        assert((-n) % (p as int) == 0) by {
            lemma_mod_equivalence(-n, 0, p as int);
            lemma_multiple(p, n, -1);
            assert(n * -1 == -n);
        }
        lemma_smaller_factor(p, r, b);
    }
}

/// A prime that divides a product divides one of its factors.
pub proof fn prime_divides_factor(p: nat, a: nat, b: int)
    requires
        prime(p),
        divides(p, a * b),
    ensures
        divides(p, a as int) || divides(p, b),
{
    if a % p != 0 {
        lemma_mul_mod_noop(a as int, b, p as int);
        lemma_mul_mod_noop((a % p) as int, b, p as int);
        lemma_mod_twice(a as int, p as int);
        assert(divides(p, (a % p) * b));
        lemma_smaller_factor(p, a % p, b);
    }
}

/// The product of a list.
spec fn product(list: Seq<nat>) -> nat
    decreases list.len(),
{
    if list.len() == 0 {
        1
    } else {
        product(list.drop_last()) * list.last()
    }
}

/// The product of the numbers up to one.
spec fn factorial(n: nat) -> nat
    decreases n,
{
    if n == 0 {
        1
    } else {
        factorial((n - 1) as nat) * n
    }
}

proof fn lemma_removed(list: Seq<nat>, i: int)
    requires
        0 <= i < list.len(),
    ensures
        product(list) == product(list.remove(i)) * list[i],
    decreases list.len(),
{
    if i == list.len() - 1 {
        assert(list.remove(i) =~= list.drop_last());
    } else {
        let front = list.drop_last();
        lemma_removed(front, i);
        assert(list.remove(i).drop_last() =~= front.remove(i));
        assert(list.remove(i).last() == list.last());
        let x = product(front.remove(i));
        assert((x * list[i]) * list.last() == (x * list.last()) * list[i]) by (nonlinear_arith);
    }
}

/// Different numbers from one to their count have its factorial as product.
proof fn lemma_rearranged(list: Seq<nat>)
    requires
        list.no_duplicates(),
        forall|i: int| 0 <= i < list.len() ==> 1 <= #[trigger] list[i] <= list.len(),
    ensures
        product(list) == factorial(list.len()),
    decreases list.len(),
{
    let n = list.len();
    if n > 0 {
        assert(list.contains(n)) by {
            if !list.contains(n) {
                let numbers = list.map_values(|x: nat| x as int);
                let range = vstd::set_lib::set_int_range(1, n as int);
                vstd::set_lib::lemma_int_range(1, n as int);
                assert(numbers.no_duplicates());
                numbers.unique_seq_to_set();
                assert(numbers.to_set().subset_of(range)) by {
                    assert forall|x: int| numbers.to_set().contains(x) implies range.contains(
                        x,
                    ) by {
                        let i = choose|i: int| 0 <= i < numbers.len() && numbers[i] == x;
                        assert(list[i] == x);
                        assert(list[i] != n);
                    }
                }
                vstd::set_lib::lemma_len_subset(numbers.to_set(), range);
            }
        }
        let i = choose|i: int| 0 <= i < n && list[i] == n;
        let rest = list.remove(i);
        assert forall|j: int| 0 <= j < rest.len() implies 1 <= #[trigger] rest[j] <= rest.len() by {
            let k = if j < i {
                j
            } else {
                j + 1
            };
            assert(rest[j] == list[k]);
            assert(list[k] != list[i]);
        }
        assert(rest.no_duplicates()) by {
            assert forall|j: int, k: int|
                0 <= j < rest.len() && 0 <= k < rest.len() && j != k implies rest[j] != rest[k] by {
                let j1 = if j < i {
                    j
                } else {
                    j + 1
                };
                let k1 = if k < i {
                    k
                } else {
                    k + 1
                };
                assert(list[j1] != list[k1]);
            }
        }
        lemma_rearranged(rest);
        lemma_removed(list, i);
    }
}

/// The first multiples of a number, reduced.
spec fn multiples(a: nat, p: nat, n: nat) -> Seq<nat> {
    Seq::new(n, |i: int| (a * (i + 1)) as nat % p)
}

proof fn lemma_product_of_multiples(a: nat, p: nat, n: nat)
    requires
        p > 0,
    ensures
        product(multiples(a, p, n)) % p == (pow(a as int, n) * factorial(n)) as nat % p,
        pow(a as int, n) >= 0,
    decreases n,
{
    let list = multiples(a, p, n);
    if n == 0 {
        lemma_pow0(a as int);
    } else {
        let m = (n - 1) as nat;
        lemma_product_of_multiples(a, p, m);
        assert(list.drop_last() =~= multiples(a, p, m));
        let x = product(list.drop_last()) as int;
        let y = pow(a as int, m) * factorial(m);
        let z = (a * n) as int;
        assert(list.last() == z as nat % p);
        lemma_mul_mod_noop(x, z % (p as int), p as int);
        lemma_mod_twice(z, p as int);
        lemma_mul_mod_noop(y, z, p as int);
        lemma_pow_adds(a as int, m, 1);
        lemma_pow1(a as int);
        assert(y >= 0) by (nonlinear_arith)
            requires
                y == pow(a as int, m) * factorial(m),
                pow(a as int, m) >= 0,
        ;
        assert(pow(a as int, n) >= 0) by (nonlinear_arith)
            requires
                pow(a as int, n) == pow(a as int, m) * a,
                pow(a as int, m) >= 0,
        ;
        assert(pow(a as int, n) * factorial(n) == y * z) by (nonlinear_arith)
            requires
                pow(a as int, n) == pow(a as int, m) * a,
                factorial(n) == factorial(m) * n,
                y == pow(a as int, m) * factorial(m),
                z == a * n,
        ;
    }
}

proof fn lemma_factorial(p: nat, n: nat)
    requires
        prime(p),
        n < p,
    ensures
        !divides(p, factorial(n) as int),
    decreases n,
{
    if n == 0 {
        lemma_small_mod(1, p);
    } else {
        lemma_factorial(p, (n - 1) as nat);
        lemma_small_mod(n, p);
        if divides(p, factorial(n) as int) {
            prime_divides_factor(p, factorial((n - 1) as nat), n as int);
        }
    }
}

/// A number that a prime does not divide, to the power of the prime minus one, is one
/// modulo the prime.
pub proof fn little_theorem(p: nat, a: nat)
    requires
        prime(p),
        a % p != 0,
    ensures
        pow(a as int, (p - 1) as nat) % (p as int) == 1,
{
    let n = (p - 1) as nat;
    let list = multiples(a, p, n);
    assert forall|i: int| 0 <= i < list.len() implies 1 <= #[trigger] list[i] <= list.len() by {
        let k = (i + 1) as nat;
        lemma_small_mod(k, p);
        if (a * k) % p == 0 {
            prime_divides_factor(p, a, k as int);
        }
        assert((a * (i + 1)) as nat == a * k);
    }
    assert(list.no_duplicates()) by {
        assert forall|i: int, j: int|
            0 <= i < list.len() && 0 <= j < list.len() && i != j implies list[i] != list[j] by {
            lemma_different(p, a, (i + 1) as nat, (j + 1) as nat);
            assert((a * (i + 1)) as nat == a * ((i + 1) as nat));
            assert((a * (j + 1)) as nat == a * ((j + 1) as nat));
        }
    }
    lemma_rearranged(list);
    lemma_product_of_multiples(a, p, n);
    let x = pow(a as int, n);
    let f = factorial(n) as int;
    assert(x * f >= 0) by (nonlinear_arith)
        requires
            x >= 0,
            f >= 0,
    ;
    assert((x * f) % (p as int) == f % (p as int));
    lemma_mod_equivalence(x * f, f, p as int);
    assert(x * f - f == f * (x - 1)) by (nonlinear_arith);
    assert(divides(p, f * (x - 1)));
    lemma_factorial(p, n);
    prime_divides_factor(p, f as nat, x - 1);
    lemma_mod_equivalence(x, 1, p as int);
    lemma_small_mod(1, p);
}

/// Different multiples, by less than a prime, of a number that the prime does not divide
/// are different modulo the prime.
proof fn lemma_different(p: nat, a: nat, i: nat, j: nat)
    requires
        prime(p),
        a % p != 0,
        0 < i < p,
        0 < j < p,
        i != j,
    ensures
        (a * i) % p != (a * j) % p,
{
    if i < j {
        lemma_different_ordered(p, a, j, i);
    } else {
        lemma_different_ordered(p, a, i, j);
    }
}

proof fn lemma_different_ordered(p: nat, a: nat, i: nat, j: nat)
    requires
        prime(p),
        a % p != 0,
        0 < j < i < p,
    ensures
        (a * i) % p != (a * j) % p,
{
    if (a * i) % p == (a * j) % p {
        lemma_mod_equivalence((a * i) as int, (a * j) as int, p as int);
        assert(a * i - a * j == a * (i - j)) by (nonlinear_arith);
        assert(divides(p, a * (i - j)));
        prime_divides_factor(p, a, i - j);
        lemma_small_mod((i - j) as nat, p);
    }
}

} // verus!
