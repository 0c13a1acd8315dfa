//! What computed wire numbers and lists of wires come to.

use crate::structs::iterators::{
    evaluated, iterexpr_value, IterExprListElement, IterExprWireNumber,
};
use crate::structs::wire::{expanded, WireListElement};
use vstd::arithmetic::div_mod::{lemma_fundamental_div_mod, lemma_fundamental_div_mod_converse};
use vstd::prelude::*;

verus! {

/// The iterators that are running.
pub type Running = Map<Seq<char>, u64>;

/// Whether an expression has a value.
pub open spec fn is_worth(e: IterExprWireNumber, running: Running, n: int) -> bool {
    iterexpr_value(e, running) is Ok && iterexpr_value(e, running)->Ok_0 == n
}

/// A constant is itself. A name is the present value of its iterator, and is refused where
/// no such iterator is running.
pub proof fn names_are_iterators(name: String, n: u64, running: Running)
    ensures
        is_worth(IterExprWireNumber::Const(n), running, n as int),
        running.contains_key(name@) ==> is_worth(
            IterExprWireNumber::Iterator(name),
            running,
            running[name@] as int,
        ),
        !running.contains_key(name@) ==> iterexpr_value(
            IterExprWireNumber::Iterator(name),
            running,
        ) is Err,
{
}

/// Taking away what was added gives what there was, and adding what was taken away does too.
/// A sum or difference has a value just where it is within the range of wire numbers.
pub proof fn sums_and_differences(
    a: IterExprWireNumber,
    b: IterExprWireNumber,
    running: Running,
    x: u64,
    y: u64,
)
    requires
        is_worth(a, running, x as int),
        is_worth(b, running, y as int),
    ensures
        ({
            let sum = IterExprWireNumber::Add(Box::new(a), Box::new(b));
            let swapped = IterExprWireNumber::Add(Box::new(b), Box::new(a));
            let difference = IterExprWireNumber::Sub(Box::new(a), Box::new(b));
            let back = IterExprWireNumber::Sub(Box::new(sum), Box::new(b));
            let forth = IterExprWireNumber::Add(Box::new(difference), Box::new(b));
            &&& iterexpr_value(sum, running) is Ok <==> x <= u64::MAX - y
            &&& iterexpr_value(sum, running) is Ok ==> {
                &&& is_worth(back, running, x as int)
                &&& iterexpr_value(swapped, running) == iterexpr_value(sum, running)
                &&& iterexpr_value(sum, running)->Ok_0 - x == y
            }
            &&& iterexpr_value(difference, running) is Ok <==> y <= x
            &&& iterexpr_value(difference, running) is Ok ==> {
                &&& is_worth(forth, running, x as int)
                &&& iterexpr_value(difference, running)->Ok_0 + y == x
            }
        }),
{
    reveal_with_fuel(iterexpr_value, 3);
}

/// A product is that of the values of its sides: nothing times anything is nothing, and one
/// time more adds the other side once more. It has a value just where that is a wire number.
pub proof fn products_add_up(
    a: IterExprWireNumber,
    b: IterExprWireNumber,
    running: Running,
    x: u64,
    y: u64,
    n: u64,
)
    requires
        is_worth(a, running, x as int),
        is_worth(b, running, y as int),
        n < u64::MAX,
    ensures
        ({
            let product = IterExprWireNumber::Mul(Box::new(a), Box::new(b));
            let swapped = IterExprWireNumber::Mul(Box::new(b), Box::new(a));
            let by_value = IterExprWireNumber::Mul(
                Box::new(a),
                Box::new(IterExprWireNumber::Const(y)),
            );
            let none = IterExprWireNumber::Mul(
                Box::new(a),
                Box::new(IterExprWireNumber::Const(0)),
            );
            let once = IterExprWireNumber::Mul(
                Box::new(a),
                Box::new(IterExprWireNumber::Const(1)),
            );
            let before = IterExprWireNumber::Mul(
                Box::new(a),
                Box::new(IterExprWireNumber::Const(n)),
            );
            let after = IterExprWireNumber::Mul(
                Box::new(a),
                Box::new(IterExprWireNumber::Const((n + 1) as u64)),
            );
            let stepped = IterExprWireNumber::Add(Box::new(before), Box::new(a));
            &&& iterexpr_value(product, running) == iterexpr_value(by_value, running)
            &&& iterexpr_value(product, running) == iterexpr_value(swapped, running)
            &&& is_worth(none, running, 0)
            &&& is_worth(once, running, x as int)
            &&& iterexpr_value(after, running) is Ok ==> iterexpr_value(before, running) is Ok
                && iterexpr_value(after, running) == iterexpr_value(stepped, running)
            &&& iterexpr_value(stepped, running) is Ok ==> iterexpr_value(after, running) is Ok
            &&& iterexpr_value(product, running) is Ok <==> x * y <= u64::MAX
            &&& iterexpr_value(product, running) is Ok ==> is_worth(product, running, x * y)
        }),
{
    reveal_with_fuel(iterexpr_value, 3);
    assert(x * y == y * x) by (nonlinear_arith);
    assert(x * y >= 0) by (nonlinear_arith);
    assert(x * n >= 0) by (nonlinear_arith);
    assert(x * (n + 1) == x * n + x) by (nonlinear_arith);
    assert(x * 0 == 0 && x * 1 == x);
}

/// A quotient is how often the divisor goes into the value: what is left over is less than
/// the divisor. Dividing a product by one of its sides gives the other one. Dividing by zero
/// is refused.
pub proof fn quotients_undo_products(a: IterExprWireNumber, running: Running, x: u64, d: u64)
    requires
        is_worth(a, running, x as int),
    ensures
        ({
            let quotient = IterExprWireNumber::DivConst(Box::new(a), d);
            let product = IterExprWireNumber::Mul(
                Box::new(a),
                Box::new(IterExprWireNumber::Const(d)),
            );
            let back = IterExprWireNumber::DivConst(Box::new(product), d);
            &&& d == 0 ==> iterexpr_value(quotient, running) is Err
            &&& d > 0 ==> iterexpr_value(quotient, running) is Ok && {
                let q = iterexpr_value(quotient, running)->Ok_0;
                d * q <= x && x - d * q < d
            }
            &&& d > 0 && iterexpr_value(product, running) is Ok ==> is_worth(
                back,
                running,
                x as int,
            )
        }),
{
    reveal_with_fuel(iterexpr_value, 3);
    if d > 0 {
        lemma_fundamental_div_mod(x as int, d as int);
        assert(x * d == d * x) by (nonlinear_arith);
        lemma_fundamental_div_mod_converse(x * d, d as int, x as int, 0);
    }
}

/// An expression with a side that has no value has none.
pub proof fn sides_are_needed(a: IterExprWireNumber, b: IterExprWireNumber, d: u64, running: Running)
    requires
        iterexpr_value(a, running) is Err,
    ensures
        iterexpr_value(IterExprWireNumber::Add(Box::new(a), Box::new(b)), running) is Err,
        iterexpr_value(IterExprWireNumber::Add(Box::new(b), Box::new(a)), running) is Err,
        iterexpr_value(IterExprWireNumber::Sub(Box::new(a), Box::new(b)), running) is Err,
        iterexpr_value(IterExprWireNumber::Sub(Box::new(b), Box::new(a)), running) is Err,
        iterexpr_value(IterExprWireNumber::Mul(Box::new(a), Box::new(b)), running) is Err,
        iterexpr_value(IterExprWireNumber::Mul(Box::new(b), Box::new(a)), running) is Err,
        iterexpr_value(IterExprWireNumber::DivConst(Box::new(a), d), running) is Err,
{
}

/// Lists of computed wires one after the other stand for the wires of both, in order, and
/// are refused just where one of them is. The empty list stands for no wires.
pub proof fn computed_lists_join(
    first: Seq<IterExprListElement>,
    second: Seq<IterExprListElement>,
    running: Running,
)
    ensures
        evaluated(first + second, running) is Ok <==> evaluated(first, running) is Ok && evaluated(
            second,
            running,
        ) is Ok,
        evaluated(first + second, running) is Ok ==> evaluated(first + second, running)->Ok_0
            == evaluated(first, running)->Ok_0 + evaluated(second, running)->Ok_0,
        evaluated(Seq::empty(), running) is Ok,
        evaluated(Seq::empty(), running)->Ok_0.len() == 0,
    decreases first.len(),
{
    let all = first + second;
    if first.len() == 0 {
        assert(all =~= second);
        if evaluated(second, running) is Ok {
            assert(Seq::<u64>::empty() + evaluated(second, running)->Ok_0 =~= evaluated(
                second,
                running,
            )->Ok_0);
        }
    } else {
        computed_lists_join(first.drop_first(), second, running);
        assert(all.drop_first() =~= first.drop_first() + second);
        assert(all[0] == first[0]);
        if evaluated(all, running) is Ok {
            assert(evaluated(all, running)->Ok_0 =~= evaluated(first, running)->Ok_0 + evaluated(
                second,
                running,
            )->Ok_0);
        }
    }
}

/// A single computed wire is its value. A range is all wires from the value of its first
/// end to that of its last one, both taken in, in ascending order; none where the last one
/// comes before the first one.
pub proof fn computed_elements(
    a: IterExprWireNumber,
    b: IterExprWireNumber,
    running: Running,
    x: u64,
    y: u64,
)
    requires
        is_worth(a, running, x as int),
        is_worth(b, running, y as int),
    ensures
        ({
            let one = evaluated(seq![IterExprListElement::Single(a)], running);
            let range = evaluated(seq![IterExprListElement::Range(a, b)], running);
            &&& one is Ok && one->Ok_0.len() == 1 && one->Ok_0[0] == x
            &&& range is Ok
            &&& forall|id: u64| #[trigger] range->Ok_0.contains(id) <==> x <= id <= y
            &&& forall|i: int, j: int|
                0 <= i < j < range->Ok_0.len() ==> #[trigger] range->Ok_0[i]
                    < #[trigger] range->Ok_0[j]
        }),
{
    reveal_with_fuel(evaluated, 2);
    let one = seq![IterExprListElement::Single(a)];
    let range = seq![IterExprListElement::Range(a, b)];
    assert(one.drop_first() =~= Seq::empty());
    assert(range.drop_first() =~= Seq::empty());
    let ids = evaluated(range, running)->Ok_0;
    assert(ids.len() == if y < x {
        0
    } else {
        y - x + 1
    });
    assert forall|id: u64| x <= id <= y implies #[trigger] ids.contains(id) by {
        assert(ids[id - x] == id);
    }
}

/// An element whose wires cannot be computed has none.
pub proof fn computed_elements_refused(
    a: IterExprWireNumber,
    b: IterExprWireNumber,
    running: Running,
)
    requires
        iterexpr_value(a, running) is Err,
    ensures
        evaluated(seq![IterExprListElement::Single(a)], running) is Err,
        evaluated(seq![IterExprListElement::Range(a, b)], running) is Err,
        evaluated(seq![IterExprListElement::Range(b, a)], running) is Err,
{
}

/// Lists of wires one after the other stand for the wires of both, in order, and are refused
/// just where one of them is. The empty list stands for no wires.
pub proof fn wire_lists_join(first: Seq<WireListElement>, second: Seq<WireListElement>)
    ensures
        expanded(first + second) is Ok <==> expanded(first) is Ok && expanded(second) is Ok,
        expanded(first + second) is Ok ==> expanded(first + second)->Ok_0 == expanded(
            first,
        )->Ok_0 + expanded(second)->Ok_0,
        expanded(Seq::empty()) is Ok,
        expanded(Seq::empty())->Ok_0.len() == 0,
    decreases first.len(),
{
    let all = first + second;
    if first.len() == 0 {
        assert(all =~= second);
        if expanded(second) is Ok {
            assert(Seq::<u64>::empty() + expanded(second)->Ok_0 =~= expanded(second)->Ok_0);
        }
    } else {
        wire_lists_join(first.drop_first(), second);
        assert(all.drop_first() =~= first.drop_first() + second);
        assert(all[0] == first[0]);
        if expanded(all) is Ok {
            assert(expanded(all)->Ok_0 =~= expanded(first)->Ok_0 + expanded(second)->Ok_0);
        }
    }
}

/// A wire stands for itself. A range stands for all wires from its first to its last one,
/// in ascending order; it is refused unless the last one comes after the first one.
pub proof fn wire_elements(first: u64, last: u64)
    ensures
        ({
            let one = expanded(seq![WireListElement::Wire(first)]);
            let range = expanded(seq![WireListElement::WireRange(first, last)]);
            &&& one is Ok && one->Ok_0.len() == 1 && one->Ok_0[0] == first
            &&& range is Ok <==> first < last
            &&& range is Ok ==> {
                &&& forall|id: u64| #[trigger] range->Ok_0.contains(id) <==> first <= id <= last
                &&& forall|i: int, j: int|
                    0 <= i < j < range->Ok_0.len() ==> #[trigger] range->Ok_0[i]
                        < #[trigger] range->Ok_0[j]
            }
        }),
{
    reveal_with_fuel(expanded, 2);
    let one = seq![WireListElement::Wire(first)];
    let range = seq![WireListElement::WireRange(first, last)];
    assert(one.drop_first() =~= Seq::empty());
    assert(range.drop_first() =~= Seq::empty());
    if first < last {
        let ids = expanded(range)->Ok_0;
        assert(ids.len() == last - first + 1);
        assert forall|id: u64| first <= id <= last implies #[trigger] ids.contains(id) by {
            assert(ids[id - first] == id);
        }
    }
}

} // verus!
