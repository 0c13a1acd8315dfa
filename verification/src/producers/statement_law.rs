//! What the messages and gates of a statement under construction are.

use crate::consumers::statements::lemma_pieces_joined;
use crate::producers::build_gates::{BuildGateV, NO_OUTPUT};
use crate::producers::builder::{empty_statement, pieces, StatementV};
use crate::producers::from_r1cs::header_over;
use crate::number::{le_value, lemma_value_of_bytes};
use crate::structs::gate::GateV;
use crate::structs::header::HeaderV;
use vstd::prelude::*;

verus! {

/// A list that is cut into pieces is put together again by joining them. No piece is empty,
/// and all but the last have the given length, which the last does not exceed.
pub proof fn pieces_make_up_the_list<T>(list: Seq<T>, size: nat)
    requires
        size > 0,
    ensures
        pieces(list, size).flatten() == list,
        list.len() == 0 <==> pieces(list, size).len() == 0,
        forall|i: int|
            0 <= i < pieces(list, size).len() - 1 ==> (#[trigger] pieces(list, size)[i]).len()
                == size,
        pieces(list, size).len() > 0 ==> 0 < pieces(list, size).last().len() <= size,
    decreases list.len(),
{
    lemma_pieces_joined(list, size);
    if list.len() > size {
        let first = list.take(size as int);
        let rest = list.skip(size as int);
        pieces_make_up_the_list(rest, size);
        let later = pieces(rest, size);
        let all = seq![first] + later;
        assert forall|i: int| 0 <= i < all.len() - 1 implies (#[trigger] all[i]).len() == size by {
            if i > 0 {
                assert(all[i] == later[i - 1]);
            }
        }
        assert(all.last() == later.last());
    }
}

/// The wires that a gate which runs no others names, its output first.
pub open spec fn named(g: GateV) -> Seq<u64> {
    match g {
        GateV::Constant(out, _) => seq![out],
        GateV::AssertZero(a) => seq![a],
        GateV::Copy(out, a) => seq![out, a],
        GateV::Add(out, a, b) => seq![out, a, b],
        GateV::Mul(out, a, b) => seq![out, a, b],
        GateV::AddConstant(out, a, _) => seq![out, a],
        GateV::MulConstant(out, a, _) => seq![out, a],
        GateV::And(out, a, b) => seq![out, a, b],
        GateV::Xor(out, a, b) => seq![out, a, b],
        GateV::Not(out, a) => seq![out, a],
        GateV::Instance(out) => seq![out],
        GateV::Witness(out) => seq![out],
        GateV::Free(first, Some(last)) => seq![first, last],
        GateV::Free(first, None) => seq![first],
        GateV::Compound(_) => Seq::empty(),
    }
}

/// The wires that a gate without an output wire names.
pub open spec fn read_by(g: BuildGateV) -> Seq<u64> {
    match g {
        BuildGateV::Constant(_) => Seq::empty(),
        BuildGateV::AssertZero(a) => seq![a],
        BuildGateV::Copy(a) => seq![a],
        BuildGateV::Add(a, b) => seq![a, b],
        BuildGateV::Mul(a, b) => seq![a, b],
        BuildGateV::AddConstant(a, _) => seq![a],
        BuildGateV::MulConstant(a, _) => seq![a],
        BuildGateV::And(a, b) => seq![a, b],
        BuildGateV::Xor(a, b) => seq![a, b],
        BuildGateV::Not(a) => seq![a],
        BuildGateV::Instance(_) => Seq::empty(),
        BuildGateV::Witness(_) => Seq::empty(),
        BuildGateV::Free(first, Some(last)) => seq![first, last],
        BuildGateV::Free(first, None) => seq![first],
    }
}

/// Whether two gates are of one kind, with the same constant if there is one.
pub open spec fn same_kind(g: BuildGateV, r: GateV) -> bool {
    match g {
        BuildGateV::Constant(x) => r matches GateV::Constant(_, y) && x == y,
        BuildGateV::AssertZero(_) => r is AssertZero,
        BuildGateV::Copy(_) => r is Copy,
        BuildGateV::Add(..) => r is Add,
        BuildGateV::Mul(..) => r is Mul,
        BuildGateV::AddConstant(_, x) => r matches GateV::AddConstant(_, _, y) && x == y,
        BuildGateV::MulConstant(_, x) => r matches GateV::MulConstant(_, _, y) && x == y,
        BuildGateV::And(..) => r is And,
        BuildGateV::Xor(..) => r is Xor,
        BuildGateV::Not(_) => r is Not,
        BuildGateV::Instance(_) => r is Instance,
        BuildGateV::Witness(_) => r is Witness,
        BuildGateV::Free(_, last) => r matches GateV::Free(_, other) && (last is Some
            <==> other is Some),
    }
}

/// A gate that is given an output wire names this wire, then its own wires in order; one that
/// writes to no wire names its own wires alone. Its kind and its constant stay.
pub proof fn output_comes_first(g: BuildGateV, output: u64)
    ensures
        g.writes() ==> named(g.writing_to(output)) == seq![output] + read_by(g),
        !g.writes() ==> named(g.writing_to(output)) == read_by(g),
        same_kind(g, g.writing_to(output)),
        g.writes() <==> !(g is AssertZero) && !(g is Free),
{
    if g.writes() {
        assert(named(g.writing_to(output)) =~= seq![output] + read_by(g));
    }
}

/// The wires that gates write to, in order.
pub open spec fn written_wires(gates: Seq<GateV>) -> Seq<u64>
    decreases gates.len(),
{
    if gates.len() == 0 {
        Seq::empty()
    } else {
        let before = written_wires(gates.drop_last());
        match gates.last() {
            GateV::AssertZero(_) => before,
            GateV::Free(..) => before,
            GateV::Compound(_) => before,
            _ => before.push(named(gates.last())[0]),
        }
    }
}

/// Whether the wires that the gates of a statement write to are all wires up to the first
/// free one, in ascending order.
pub open spec fn numbered(v: StatementV) -> bool {
    &&& written_wires(v.gates).len() == v.free_id
    &&& forall|i: int| 0 <= i < v.free_id ==> #[trigger] written_wires(v.gates)[i] == i
}

/// Gates write to the wires from zero on, one after the other. A gate that is appended comes
/// last, and its value, if there is one, comes last among those of its kind; what was there
/// before stays.
pub proof fn wires_are_written_in_order(v: StatementV, g: BuildGateV)
    requires
        numbered(v),
        v.free_id < NO_OUTPUT,
    ensures
        ({
            let w = v.with_gate(g);
            &&& numbered(w)
            &&& w.gates.len() == v.gates.len() + 1
            &&& w.gates.drop_last() == v.gates
            &&& same_kind(g, w.gates.last())
            &&& g.writes() ==> named(w.gates.last()) == seq![v.free_id as u64] + read_by(g)
            &&& !g.writes() ==> named(w.gates.last()) == read_by(g)
            &&& w.instances == match g {
                BuildGateV::Instance(Some(x)) => v.instances + seq![x],
                _ => v.instances,
            }
            &&& w.witnesses == match g {
                BuildGateV::Witness(Some(x)) => v.witnesses + seq![x],
                _ => v.witnesses,
            }
            &&& w.header == v.header && w.gate_mask == v.gate_mask && w.feat_mask == v.feat_mask
        }),
{
    let w = v.with_gate(g);
    let output = if g.writes() {
        v.free_id as u64
    } else {
        NO_OUTPUT
    };
    output_comes_first(g, output);
    assert(w.gates.drop_last() =~= v.gates);
    assert(w.gates.last() == g.writing_to(output));
    if g.writes() {
        assert(named(w.gates.last())[0] == output);
        assert(written_wires(w.gates) =~= written_wires(v.gates).push(output));
    } else {
        assert(written_wires(w.gates) == written_wires(v.gates));
    }
    match g {
        BuildGateV::Instance(Some(x)) => {
            assert(w.instances =~= v.instances + seq![x]);
        },
        BuildGateV::Witness(Some(x)) => {
            assert(w.witnesses =~= v.witnesses + seq![x]);
        },
        _ => {},
    }
}

/// A statement starts without gates and values.
pub proof fn statements_start_empty(header: HeaderV, gate_mask: u16, feat_mask: u16)
    ensures
        ({
            let v = empty_statement(header, gate_mask, feat_mask);
            &&& numbered(v)
            &&& v.gates.len() == 0 && v.instances.len() == 0 && v.witnesses.len() == 0
            &&& v.header == header && v.gate_mask == gate_mask && v.feat_mask == feat_mask
        }),
{
}

/// The field of a header is the one whose largest element is given: its characteristic is
/// this plus one, and its degree is one.
pub proof fn maximum_gives_characteristic(field_maximum: Seq<u8>)
    ensures
        le_value(header_over(field_maximum).field_characteristic) == le_value(field_maximum) + 1,
        header_over(field_maximum).field_degree == 1,
{
    lemma_value_of_bytes(le_value(field_maximum) + 1);
}

} // verus!
