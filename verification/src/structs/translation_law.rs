//! What giving a gate the wires of a call does to it.

use crate::structs::copies::{same_blocks, same_body_gate, same_body_gates};
use crate::structs::functions::{
    all_placed, all_translatable, all_translated, placed, translatable, translated, wires_at, Block,
};
use crate::structs::gates::Gate;
use crate::structs::wire::bytes_of;
use vstd::prelude::*;

verus! {

/// The wires that a gate names, at every place where it names one, in order.
pub open spec fn wires_in(g: Gate) -> Seq<u64>
    decreases g, 0int,
{
    match g {
        Gate::Constant(out, _) => seq![out],
        Gate::AssertZero(a) => seq![a],
        Gate::Copy(out, a) => seq![out, a],
        Gate::Add(out, a, b) => seq![out, a, b],
        Gate::Mul(out, a, b) => seq![out, a, b],
        Gate::AddConstant(out, a, _) => seq![out, a],
        Gate::MulConstant(out, a, _) => seq![out, a],
        Gate::And(out, a, b) => seq![out, a, b],
        Gate::Xor(out, a, b) => seq![out, a, b],
        Gate::Not(out, a) => seq![out, a],
        Gate::Instance(out) => seq![out],
        Gate::Witness(out) => seq![out],
        Gate::Free(first, Some(last)) => seq![first, last],
        Gate::Free(first, None) => seq![first],
        Gate::Call(_, outs, ins) => outs@ + ins@,
        Gate::Switch(condition, outs, ins, _, _, _, branches) => seq![condition] + outs@ + ins@
            + wires_in_blocks(branches@, branches@.len()),
        Gate::Function(_, _, _, _, _, body) => wires_in_gates(body@, body@.len()),
    }
}

/// The wires that the first `k` of several gates name.
pub open spec fn wires_in_gates(gates: Seq<Gate>, k: nat) -> Seq<u64>
    decreases gates, k,
{
    if k == 0 || k > gates.len() {
        Seq::empty()
    } else {
        wires_in_gates(gates, (k - 1) as nat) + wires_in(gates[k - 1])
    }
}

/// The wires that the gates of the first `k` of several blocks name.
pub open spec fn wires_in_blocks(blocks: Seq<Block>, k: nat) -> Seq<u64>
    decreases blocks, k,
{
    if k == 0 || k > blocks.len() {
        Seq::empty()
    } else {
        wires_in_blocks(blocks, (k - 1) as nat) + wires_in_gates(
            blocks[k - 1].0@,
            blocks[k - 1].0@.len(),
        )
    }
}

/// Whether two gates are the same but for the numbers of the wires that they name.
pub open spec fn same_but_wires(a: Gate, b: Gate) -> bool
    decreases a, 0int,
{
    match a {
        Gate::Constant(_, x) => b matches Gate::Constant(_, y) && x@ == y@,
        Gate::AssertZero(_) => b is AssertZero,
        Gate::Copy(..) => b is Copy,
        Gate::Add(..) => b is Add,
        Gate::Mul(..) => b is Mul,
        Gate::AddConstant(_, _, x) => b matches Gate::AddConstant(_, _, y) && x@ == y@,
        Gate::MulConstant(_, _, x) => b matches Gate::MulConstant(_, _, y) && x@ == y@,
        Gate::And(..) => b is And,
        Gate::Xor(..) => b is Xor,
        Gate::Not(..) => b is Not,
        Gate::Instance(_) => b is Instance,
        Gate::Witness(_) => b is Witness,
        Gate::Free(_, last) => b matches Gate::Free(_, other) && (last is Some <==> other is Some),
        Gate::Call(n, outs, ins) => b matches Gate::Call(m, o, i) && n@ == m@ && outs@.len()
            == o@.len() && ins@.len() == i@.len(),
        Gate::Switch(_, outs, ins, x, y, cases, blocks) => b matches Gate::Switch(
            _,
            o,
            i,
            z,
            w,
            values,
            others,
        ) && outs@.len() == o@.len() && ins@.len() == i@.len() && x == z && y == w && bytes_of(
            cases@,
        ) == bytes_of(values@) && blocks_same_but_wires(blocks@, others@),
        Gate::Function(n, x, y, z, w, body) => b matches Gate::Function(m, p, q, s, t, other) && n@
            == m@ && x == p && y == q && z == s && w == t && gates_same_but_wires(body@, other@),
    }
}

pub open spec fn gates_same_but_wires(a: Seq<Gate>, b: Seq<Gate>) -> bool
    decreases a, 1int,
{
    a.len() == b.len() && forall|i: int|
        0 <= i < a.len() ==> same_but_wires(#[trigger] a[i], b[i])
}

pub open spec fn blocks_same_but_wires(a: Seq<Block>, b: Seq<Block>) -> bool
    decreases a, 1int,
{
    a.len() == b.len() && forall|i: int|
        0 <= i < a.len() ==> gates_same_but_wires((#[trigger] a[i]).0@, b[i].0@)
}

/// Whether wires are those that stand at several places.
pub open spec fn stand_at(found: Seq<u64>, places: Seq<u64>, wires: Seq<u64>) -> bool {
    &&& found.len() == places.len()
    &&& forall|i: int| 0 <= i < places.len() ==> #[trigger] found[i] == wires[places[i] as int]
}

/// Giving a gate wires replaces the number of a wire, at every place where it names one,
/// by the wire that stands at that place among them, and leaves the rest of it.
pub proof fn translation_replaces_wires(g: Gate, wires: Seq<u64>, r: Gate)
    requires
        translatable(g, wires),
        translated(g, wires, r),
    ensures
        stand_at(wires_in(r), wires_in(g), wires),
        same_but_wires(g, r),
    decreases g, 0int,
{
    match (g, r) {
        (Gate::Call(_, o, i), Gate::Call(_, o2, i2)) => {
            assert(stand_at(o2@ + i2@, o@ + i@, wires));
        },
        (Gate::Switch(c, o, i, _, _, _, bs), Gate::Switch(c2, o2, i2, _, _, _, bs2)) => {
            lemma_replaced_blocks(bs@, wires, bs2@, bs@.len());
            let front = seq![c] + o@ + i@;
            let front2 = seq![c2] + o2@ + i2@;
            assert(stand_at(front2, front, wires));
            let rest = wires_in_blocks(bs@, bs@.len());
            let rest2 = wires_in_blocks(bs2@, bs@.len());
            lemma_joined(front2, front, rest2, rest, wires);
        },
        _ => {},
    }
}

proof fn lemma_joined(
    first: Seq<u64>,
    at_first: Seq<u64>,
    second: Seq<u64>,
    at_second: Seq<u64>,
    wires: Seq<u64>,
)
    requires
        stand_at(first, at_first, wires),
        stand_at(second, at_second, wires),
    ensures
        stand_at(first + second, at_first + at_second, wires),
{
}

proof fn lemma_replaced_gates(gates: Seq<Gate>, wires: Seq<u64>, r: Seq<Gate>, k: nat)
    requires
        all_translatable(gates, wires),
        all_translated(gates, wires, r),
        k <= gates.len(),
    ensures
        stand_at(wires_in_gates(r, k), wires_in_gates(gates, k), wires),
        k == gates.len() ==> gates_same_but_wires(gates, r),
    decreases gates, k,
{
    if k > 0 {
        let before = (k - 1) as nat;
        lemma_replaced_gates(gates, wires, r, before);
        assert(translatable(gates[k - 1], wires));
        assert(translated(gates[k - 1], wires, r[k - 1]));
        translation_replaces_wires(gates[k - 1], wires, r[k - 1]);
        lemma_joined(
            wires_in_gates(r, before),
            wires_in_gates(gates, before),
            wires_in(r[k - 1]),
            wires_in(gates[k - 1]),
            wires,
        );
    }
    if k == gates.len() {
        assert forall|i: int| 0 <= i < gates.len() implies same_but_wires(
            #[trigger] gates[i],
            r[i],
        ) by {
            assert(translatable(gates[i], wires));
            assert(translated(gates[i], wires, r[i]));
            translation_replaces_wires(gates[i], wires, r[i]);
        }
    }
}

proof fn lemma_replaced_blocks(blocks: Seq<Block>, wires: Seq<u64>, r: Seq<Block>, k: nat)
    requires
        r.len() == blocks.len(),
        forall|i: int|
            0 <= i < blocks.len() ==> all_translatable((#[trigger] blocks[i]).0@, wires),
        forall|i: int|
            0 <= i < blocks.len() ==> all_translated((#[trigger] blocks[i]).0@, wires, r[i].0@),
        k <= blocks.len(),
    ensures
        stand_at(wires_in_blocks(r, k), wires_in_blocks(blocks, k), wires),
        k == blocks.len() ==> blocks_same_but_wires(blocks, r),
    decreases blocks, k,
{
    if k > 0 {
        let before = (k - 1) as nat;
        lemma_replaced_blocks(blocks, wires, r, before);
        let gates = blocks[k - 1].0@;
        let others = r[k - 1].0@;
        lemma_replaced_gates(gates, wires, others, gates.len());
        lemma_joined(
            wires_in_blocks(r, before),
            wires_in_blocks(blocks, before),
            wires_in_gates(others, gates.len()),
            wires_in_gates(gates, gates.len()),
            wires,
        );
    }
    if k == blocks.len() {
        assert forall|i: int| 0 <= i < blocks.len() implies gates_same_but_wires(
            (#[trigger] blocks[i]).0@,
            r[i].0@,
        ) by {
            lemma_replaced_gates(blocks[i].0@, wires, r[i].0@, blocks[i].0@.len());
        }
    }
}

/// Whether each wire stands at its own place.
pub open spec fn in_place(wires: Seq<u64>) -> bool {
    forall|i: int| 0 <= i < wires.len() ==> #[trigger] wires[i] == i
}

/// A gate that is given each wire at its own place is the same afterwards.
pub proof fn translation_in_place(g: Gate, wires: Seq<u64>, r: Gate)
    requires
        translatable(g, wires),
        translated(g, wires, r),
        in_place(wires),
    ensures
        same_body_gate(g, r),
    decreases g, 0int,
{
    match (g, r) {
        (Gate::Call(_, o, i), Gate::Call(_, o2, i2)) => {
            lemma_list_in_place(o@, wires);
            lemma_list_in_place(i@, wires);
        },
        (Gate::Switch(c, o, i, _, _, _, bs), Gate::Switch(c2, o2, i2, _, _, _, bs2)) => {
            lemma_list_in_place(o@, wires);
            lemma_list_in_place(i@, wires);
            lemma_blocks_in_place(bs@, wires, bs2@, 0);
        },
        _ => {},
    }
}

proof fn lemma_list_in_place(ids: Seq<u64>, wires: Seq<u64>)
    requires
        all_placed(ids, wires),
        in_place(wires),
    ensures
        wires_at(ids, wires) == ids,
{
    assert forall|i: int| 0 <= i < ids.len() implies #[trigger] wires_at(ids, wires)[i]
        == ids[i] by {
        assert(placed(ids[i], wires));
    }
    assert(wires_at(ids, wires) =~= ids);
}

proof fn lemma_gates_in_place(gates: Seq<Gate>, wires: Seq<u64>, r: Seq<Gate>, k: nat)
    requires
        all_translatable(gates, wires),
        all_translated(gates, wires, r),
        in_place(wires),
    ensures
        same_body_gates(gates, r, k),
    decreases gates, gates.len() - k,
{
    if k < gates.len() {
        assert(translatable(gates[k as int], wires));
        assert(translated(gates[k as int], wires, r[k as int]));
        translation_in_place(gates[k as int], wires, r[k as int]);
        lemma_gates_in_place(gates, wires, r, k + 1);
    }
}

proof fn lemma_blocks_in_place(blocks: Seq<Block>, wires: Seq<u64>, r: Seq<Block>, k: nat)
    requires
        r.len() == blocks.len(),
        forall|i: int|
            0 <= i < blocks.len() ==> all_translatable((#[trigger] blocks[i]).0@, wires),
        forall|i: int|
            0 <= i < blocks.len() ==> all_translated((#[trigger] blocks[i]).0@, wires, r[i].0@),
        in_place(wires),
    ensures
        same_blocks(blocks, r, k),
    decreases blocks, blocks.len() - k,
{
    if k < blocks.len() {
        lemma_gates_in_place(blocks[k as int].0@, wires, r[k as int].0@, 0);
        lemma_blocks_in_place(blocks, wires, r, k + 1);
    }
}

/// A copy of a gate names the same wires at the same places, and is the same in the rest.
pub proof fn copies_name_the_same_wires(a: Gate, b: Gate)
    requires
        same_body_gate(a, b),
    ensures
        wires_in(a) == wires_in(b),
        same_but_wires(a, b),
    decreases a, 0int,
{
    match (a, b) {
        (Gate::Switch(_, _, _, _, _, _, bs), Gate::Switch(_, _, _, _, _, _, bs2)) => {
            lemma_copied_blocks(bs@, bs2@, 0);
            lemma_same_in_blocks(bs@, bs2@, bs@.len());
        },
        (Gate::Function(_, _, _, _, _, body), Gate::Function(_, _, _, _, _, other)) => {
            lemma_copied_gates(body@, other@, 0);
            lemma_same_in_gates(body@, other@, body@.len());
        },
        _ => {},
    }
}

proof fn lemma_same_in_gates(a: Seq<Gate>, b: Seq<Gate>, k: nat)
    requires
        k <= a.len(),
        a.len() == b.len(),
        forall|i: int| 0 <= i < a.len() ==> wires_in(#[trigger] a[i]) == wires_in(b[i]),
    ensures
        wires_in_gates(a, k) == wires_in_gates(b, k),
    decreases k,
{
    if k > 0 {
        lemma_same_in_gates(a, b, (k - 1) as nat);
        assert(wires_in(a[k - 1]) == wires_in(b[k - 1]));
    }
}

proof fn lemma_same_in_blocks(a: Seq<Block>, b: Seq<Block>, k: nat)
    requires
        k <= a.len(),
        a.len() == b.len(),
        forall|i: int|
            0 <= i < a.len() ==> wires_in_gates((#[trigger] a[i]).0@, a[i].0@.len())
                == wires_in_gates(b[i].0@, b[i].0@.len()),
    ensures
        wires_in_blocks(a, k) == wires_in_blocks(b, k),
    decreases k,
{
    if k > 0 {
        lemma_same_in_blocks(a, b, (k - 1) as nat);
        assert(wires_in_gates(a[k - 1].0@, a[k - 1].0@.len()) == wires_in_gates(
            b[k - 1].0@,
            b[k - 1].0@.len(),
        ));
    }
}

proof fn lemma_copied_gates(a: Seq<Gate>, b: Seq<Gate>, k: nat)
    requires
        same_body_gates(a, b, k),
    ensures
        a.len() == b.len(),
        forall|i: int|
            k <= i < a.len() ==> wires_in(#[trigger] a[i]) == wires_in(b[i]) && same_but_wires(
                a[i],
                b[i],
            ),
    decreases a, a.len() - k,
{
    if k < a.len() {
        copies_name_the_same_wires(a[k as int], b[k as int]);
        lemma_copied_gates(a, b, k + 1);
    }
}

proof fn lemma_copied_blocks(a: Seq<Block>, b: Seq<Block>, k: nat)
    requires
        same_blocks(a, b, k),
    ensures
        a.len() == b.len(),
        forall|i: int|
            k <= i < a.len() ==> wires_in_gates((#[trigger] a[i]).0@, a[i].0@.len())
                == wires_in_gates(b[i].0@, b[i].0@.len()) && gates_same_but_wires(
                a[i].0@,
                b[i].0@,
            ),
    decreases a, a.len() - k,
{
    if k < a.len() {
        let first = a[k as int].0@;
        let second = b[k as int].0@;
        lemma_copied_gates(first, second, 0);
        lemma_same_in_gates(first, second, first.len());
        lemma_copied_blocks(a, b, k + 1);
    }
}

/// Whether there is a wire at each of several places.
pub open spec fn within(places: Seq<u64>, wires: Seq<u64>) -> bool {
    forall|i: int| 0 <= i < places.len() ==> (#[trigger] places[i]) < wires.len()
}

/// A gate can be given wires only where it defines no function, and there is a wire at the
/// place of each wire that it names.
pub proof fn translation_needs_wires(g: Gate, wires: Seq<u64>)
    requires
        translatable(g, wires),
    ensures
        within(wires_in(g), wires),
        g !is Function,
    decreases g, 0int,
{
    match g {
        Gate::Call(_, outs, ins) => {
            lemma_placed(outs@, wires);
            lemma_placed(ins@, wires);
            lemma_within(outs@, ins@, wires);
        },
        Gate::Switch(c, outs, ins, _, _, _, branches) => {
            lemma_placed(outs@, wires);
            lemma_placed(ins@, wires);
            lemma_placed_blocks(branches@, wires, branches@.len());
            lemma_within(seq![c], outs@, wires);
            lemma_within(seq![c] + outs@, ins@, wires);
            lemma_within(
                seq![c] + outs@ + ins@,
                wires_in_blocks(branches@, branches@.len()),
                wires,
            );
        },
        _ => {},
    }
}

proof fn lemma_placed(ids: Seq<u64>, wires: Seq<u64>)
    requires
        all_placed(ids, wires),
    ensures
        within(ids, wires),
{
    assert forall|i: int| 0 <= i < ids.len() implies (#[trigger] ids[i]) < wires.len() by {
        assert(placed(ids[i], wires));
    }
}

proof fn lemma_within(first: Seq<u64>, second: Seq<u64>, wires: Seq<u64>)
    requires
        within(first, wires),
        within(second, wires),
    ensures
        within(first + second, wires),
{
}

proof fn lemma_placed_gates(gates: Seq<Gate>, wires: Seq<u64>, k: nat)
    requires
        all_translatable(gates, wires),
        k <= gates.len(),
    ensures
        within(wires_in_gates(gates, k), wires),
    decreases gates, k,
{
    if k > 0 {
        let before = (k - 1) as nat;
        lemma_placed_gates(gates, wires, before);
        assert(translatable(gates[k - 1], wires));
        translation_needs_wires(gates[k - 1], wires);
        lemma_within(wires_in_gates(gates, before), wires_in(gates[k - 1]), wires);
    }
}

proof fn lemma_placed_blocks(blocks: Seq<Block>, wires: Seq<u64>, k: nat)
    requires
        forall|i: int|
            0 <= i < blocks.len() ==> all_translatable((#[trigger] blocks[i]).0@, wires),
        k <= blocks.len(),
    ensures
        within(wires_in_blocks(blocks, k), wires),
    decreases blocks, k,
{
    if k > 0 {
        let before = (k - 1) as nat;
        let gates = blocks[k - 1].0@;
        lemma_placed_blocks(blocks, wires, before);
        lemma_placed_gates(gates, wires, gates.len());
        lemma_within(wires_in_blocks(blocks, before), wires_in_gates(gates, gates.len()), wires);
    }
}

} // verus!
