//! What the digits of numbers are, in bytes, in binary and in decimal.

use crate::error::{decimal, digit_char};
use crate::number::{bits_and, bits_xor, le_bytes, le_value, lemma_value_of_bytes};
use vstd::arithmetic::power::{lemma_pow0, lemma_pow1, pow};
use vstd::prelude::*;

verus! {

/// A number divided by two as often as told, rounded down each time.
pub open spec fn halved(n: nat, times: nat) -> nat
    decreases times,
{
    if times == 0 {
        n
    } else {
        halved(n / 2, (times - 1) as nat)
    }
}

/// Whether a binary digit of a number is set. The last digit is digit zero.
pub open spec fn bit(n: nat, i: nat) -> bool {
    halved(n, i) % 2 == 1
}

/// A binary digit of `and` is set just where it is set in both numbers, and one of `xor` just
/// where it is set in exactly one of them.
pub proof fn digits_of_bits(a: nat, b: nat, i: nat)
    ensures
        bit(bits_and(a, b), i) <==> bit(a, i) && bit(b, i),
        bit(bits_xor(a, b), i) <==> bit(a, i) != bit(b, i),
    decreases i,
{
    let both = bits_and(a, b);
    let either = bits_xor(a, b);
    assert(both / 2 == bits_and(a / 2, b / 2)) by {
        if a == 0 {
            assert(bits_and(0, b / 2) == 0);
        }
    }
    assert(either / 2 == bits_xor(a / 2, b / 2)) by {
        if a == 0 && b == 0 {
            assert(bits_xor(0, 0) == 0);
        }
    }
    if i > 0 {
        digits_of_bits(a / 2, b / 2, (i - 1) as nat);
    } else {
        assert(a == 0 ==> a % 2 == 0);
    }
}

/// Bytes that follow others count as much as their own value, times 256 for each byte before
/// them.
pub proof fn later_bytes_count_more(first: Seq<u8>, second: Seq<u8>)
    ensures
        le_value(first + second) == le_value(first) + pow(256, first.len()) * le_value(second),
    decreases first.len(),
{
    if first.len() == 0 {
        assert(first + second =~= second);
        lemma_pow0(256);
        assert(1 * le_value(second) == le_value(second));
    } else {
        let rest = first.drop_first();
        later_bytes_count_more(rest, second);
        assert((first + second).drop_first() =~= rest + second);
        assert((first + second)[0] == first[0]);
        let power = pow(256, rest.len());
        assert(pow(256, first.len()) == 256 * power) by {
            lemma_pow1(256);
            reveal(pow);
        }
        let later = le_value(second) as int;
        assert(256 * (power * later) == (256 * power) * later) by (nonlinear_arith);
    }
}

/// The bytes of a number are the shortest that stand for it: the last one is zero only where
/// it is the only one.
pub proof fn bytes_are_shortest(n: nat)
    ensures
        le_bytes(n).len() > 0,
        le_bytes(n).len() > 1 ==> le_bytes(n).last() != 0,
        le_bytes(n).len() == 1 <==> n < 256,
        le_value(le_bytes(n)) == n,
    decreases n,
{
    lemma_value_of_bytes(n);
    if n >= 256 {
        bytes_are_shortest(n / 256);
        let rest = le_bytes(n / 256);
        let all = le_bytes(n);
        assert(all == seq![(n % 256) as u8] + rest);
        assert(all.last() == rest.last());
        if rest.len() == 1 {
            reveal_with_fuel(le_value, 2);
            assert(rest.drop_first() =~= Seq::empty());
            assert(le_value(rest) == rest[0]);
            assert(rest.last() == rest[0]);
        }
    }
}

/// The number that decimal digits stand for.
pub open spec fn decimal_value(text: Seq<char>) -> int
    decreases text.len(),
{
    if text.len() == 0 {
        0
    } else {
        10 * decimal_value(text.drop_last()) + (text.last() as int - '0' as int)
    }
}

/// A number written in decimal reads back as the number. It has no characters but digits, and
/// does not begin with zero, unless it is zero.
pub proof fn decimal_reads_back(n: nat)
    ensures
        decimal_value(decimal(n)) == n,
        decimal(n).len() > 0,
        forall|i: int| 0 <= i < decimal(n).len() ==> '0' <= #[trigger] decimal(n)[i] <= '9',
        n > 0 ==> decimal(n)[0] != '0',
    decreases n,
{
    reveal_with_fuel(decimal_value, 2);
    if n < 10 {
        assert(digit_char(n) as int == 48 + n);
        assert(decimal(n).drop_last() =~= Seq::empty());
    } else {
        decimal_reads_back(n / 10);
        let d = n % 10;
        assert(digit_char(d) as int == 48 + d);
        assert(decimal(n).drop_last() =~= decimal(n / 10));
        assert(decimal(n).last() == digit_char(d));
        assert forall|i: int| 0 <= i < decimal(n).len() implies '0' <= #[trigger] decimal(n)[i]
            <= '9' by {
            if i < decimal(n).len() - 1 {
                assert(decimal(n)[i] == decimal(n / 10)[i]);
            }
        }
        assert(decimal(n)[0] == decimal(n / 10)[0]);
    }
}

} // verus!
