//! Copies of gates and of what they hold.

use crate::structs::function::{CaseInvoke, ForLoopBody};
use crate::structs::functions::Block;
use crate::structs::gate::Gate;
use crate::structs::gates;
use crate::structs::iterators::{IterExprListElement, IterExprWireNumber};
use crate::structs::wire::{bytes_of, to_value, Value, WireId, WireListElement};
use vstd::prelude::*;
use vstd::string::*;

verus! {

/// Whether two expressions are the same.
pub open spec fn same_expression(a: IterExprWireNumber, b: IterExprWireNumber) -> bool
    decreases a,
{
    match a {
        IterExprWireNumber::Const(n) => b == IterExprWireNumber::Const(n),
        IterExprWireNumber::Iterator(n) => b matches IterExprWireNumber::Iterator(m) && n@ == m@,
        IterExprWireNumber::Add(x, y) => b matches IterExprWireNumber::Add(z, w)
            && same_expression(*x, *z) && same_expression(*y, *w),
        IterExprWireNumber::Sub(x, y) => b matches IterExprWireNumber::Sub(z, w)
            && same_expression(*x, *z) && same_expression(*y, *w),
        IterExprWireNumber::Mul(x, y) => b matches IterExprWireNumber::Mul(z, w)
            && same_expression(*x, *z) && same_expression(*y, *w),
        IterExprWireNumber::DivConst(x, d) => b matches IterExprWireNumber::DivConst(z, e)
            && same_expression(*x, *z) && d == e,
    }
}

/// Whether two elements of lists are the same.
pub open spec fn same_element(a: IterExprListElement, b: IterExprListElement) -> bool {
    match a {
        IterExprListElement::Single(x) => b matches IterExprListElement::Single(z)
            && same_expression(x, z),
        IterExprListElement::Range(x, y) => b matches IterExprListElement::Range(z, w)
            && same_expression(x, z) && same_expression(y, w),
    }
}

/// Whether two lists have the same elements.
pub open spec fn same_list(a: Seq<IterExprListElement>, b: Seq<IterExprListElement>) -> bool {
    a.len() == b.len() && forall|i: int|
        0 <= i < a.len() ==> same_element(#[trigger] a[i], #[trigger] b[i])
}

/// Whether two gates are the same.
pub open spec fn same_gate(a: Gate, b: Gate) -> bool
    decreases a, 0int,
{
    match a {
        Gate::Constant(out, x) => b matches Gate::Constant(o, y) && out == o && x@ == y@,
        Gate::AddConstant(out, i, x) => b matches Gate::AddConstant(o, j, y) && out == o && i == j
            && x@ == y@,
        Gate::MulConstant(out, i, x) => b matches Gate::MulConstant(o, j, y) && out == o && i == j
            && x@ == y@,
        Gate::Call(n, outs, ins) => b matches Gate::Call(m, o, i) && n@ == m@ && outs@ == o@
            && ins@ == i@,
        Gate::AnonCall(outs, ins, x, y, gates) => b matches Gate::AnonCall(o, i, z, w, others)
            && outs@ == o@ && ins@ == i@ && x == z && y == w && same_gates(gates@, others@, 0),
        Gate::Switch(c, outs, cases, branches) => b matches Gate::Switch(d, o, values, others)
            && c == d && outs@ == o@ && bytes_of(cases@) == bytes_of(values@) && same_branches(
            branches@,
            others@,
            0,
        ),
        Gate::For(n, x, y, outs, body) => b matches Gate::For(m, z, w, o, other) && n@ == m@ && x
            == z && y == w && outs@ == o@ && same_body(body, other),
        _ => b == a,
    }
}

/// Whether two lists have the same gates, from the `k`-th on.
pub open spec fn same_gates(a: Seq<Gate>, b: Seq<Gate>, k: nat) -> bool
    decreases a, a.len() - k,
{
    &&& a.len() == b.len()
    &&& k < a.len() ==> same_gate(a[k as int], b[k as int]) && same_gates(a, b, k + 1)
}

/// Whether two branches are the same.
pub open spec fn same_branch(a: CaseInvoke, b: CaseInvoke) -> bool
    decreases a, 0int,
{
    match a {
        CaseInvoke::AbstractGateCall(n, ins) => b matches CaseInvoke::AbstractGateCall(m, i) && n@
            == m@ && ins@ == i@,
        CaseInvoke::AbstractAnonCall(ins, x, y, gates) => b matches CaseInvoke::AbstractAnonCall(
            i,
            z,
            w,
            others,
        ) && ins@ == i@ && x == z && y == w && same_gates(gates@, others@, 0),
    }
}

/// Whether two lists have the same branches, from the `k`-th on.
pub open spec fn same_branches(a: Seq<CaseInvoke>, b: Seq<CaseInvoke>, k: nat) -> bool
    decreases a, a.len() - k,
{
    &&& a.len() == b.len()
    &&& k < a.len() ==> same_branch(a[k as int], b[k as int]) && same_branches(a, b, k + 1)
}

/// Whether two bodies of loops are the same.
pub open spec fn same_body(a: ForLoopBody, b: ForLoopBody) -> bool
    decreases a, 0int,
{
    match a {
        ForLoopBody::IterExprCall(n, outs, ins) => b matches ForLoopBody::IterExprCall(m, o, i)
            && n@ == m@ && same_list(outs@, o@) && same_list(ins@, i@),
        ForLoopBody::IterExprAnonCall(outs, ins, x, y, gates) => b matches
            ForLoopBody::IterExprAnonCall(o, i, z, w, others) && same_list(outs@, o@)
            && same_list(ins@, i@) && x == z && y == w && same_gates(gates@, others@, 0),
    }
}

fn copy_wires(list: &Vec<WireListElement>) -> (r: Vec<WireListElement>)
    ensures
        r@ == list@,
{
    let r = list.clone();
    assert(r@ =~= list@);
    r
}

fn copy_ids(list: &Vec<WireId>) -> (r: Vec<WireId>)
    ensures
        r@ == list@,
{
    let r = list.clone();
    assert(r@ =~= list@);
    r
}

fn copy_values(list: &Vec<Value>) -> (r: Vec<Value>)
    ensures
        bytes_of(r@) == bytes_of(list@),
{
    let mut r: Vec<Value> = Vec::new();
    let mut k: usize = 0;
    while k < list.len()
        invariant
            k <= list@.len(),
            bytes_of(r@) =~= bytes_of(list@).take(k as int),
        decreases list@.len() - k,
    {
        let ghost before = r@;
        r.push(to_value(list[k].as_slice()));
        assert(bytes_of(r@) =~= bytes_of(before).push(list@[k as int]@));
        assert(bytes_of(list@).take(k + 1) =~= bytes_of(list@).take(k as int).push(
            list@[k as int]@,
        ));
        k = k + 1;
    }
    assert(bytes_of(list@).take(k as int) =~= bytes_of(list@));
    r
}

fn copy_expression(e: &IterExprWireNumber) -> (r: IterExprWireNumber)
    ensures
        same_expression(*e, r),
    decreases e,
{
    match e {
        IterExprWireNumber::Const(n) => IterExprWireNumber::Const(*n),
        IterExprWireNumber::Iterator(name) => IterExprWireNumber::Iterator(name.clone()),
        IterExprWireNumber::Add(x, y) => IterExprWireNumber::Add(
            Box::new(copy_expression(x)),
            Box::new(copy_expression(y)),
        ),
        IterExprWireNumber::Sub(x, y) => IterExprWireNumber::Sub(
            Box::new(copy_expression(x)),
            Box::new(copy_expression(y)),
        ),
        IterExprWireNumber::Mul(x, y) => IterExprWireNumber::Mul(
            Box::new(copy_expression(x)),
            Box::new(copy_expression(y)),
        ),
        IterExprWireNumber::DivConst(x, d) => IterExprWireNumber::DivConst(
            Box::new(copy_expression(x)),
            *d,
        ),
    }
}

fn copy_element(e: &IterExprListElement) -> (r: IterExprListElement)
    ensures
        same_element(*e, r),
{
    match e {
        IterExprListElement::Single(x) => IterExprListElement::Single(copy_expression(x)),
        IterExprListElement::Range(x, y) => IterExprListElement::Range(
            copy_expression(x),
            copy_expression(y),
        ),
    }
}

fn copy_list(list: &Vec<IterExprListElement>) -> (r: Vec<IterExprListElement>)
    ensures
        same_list(list@, r@),
{
    let mut r: Vec<IterExprListElement> = Vec::new();
    let mut k: usize = 0;
    while k < list.len()
        invariant
            k <= list@.len(),
            same_list(list@.take(k as int), r@),
        decreases list@.len() - k,
    {
        let ghost before = r@;
        let e = copy_element(&list[k]);
        r.push(e);
        assert forall|i: int| 0 <= i < k + 1 implies same_element(
            #[trigger] list@.take(k + 1)[i],
            #[trigger] r@[i],
        ) by {
            if i < k {
                assert(same_element(list@.take(k as int)[i], before[i]));
            }
        }
        k = k + 1;
    }
    assert(list@.take(k as int) =~= list@);
    r
}

/// Lists whose gates are the same one by one have the same gates.
proof fn lemma_same_gates(a: Seq<Gate>, b: Seq<Gate>, k: nat)
    requires
        a.len() == b.len(),
        forall|i: int| 0 <= i < a.len() ==> same_gate(#[trigger] a[i], #[trigger] b[i]),
    ensures
        same_gates(a, b, k),
    decreases a.len() - k,
{
    if k < a.len() {
        assert(same_gate(a[k as int], b[k as int]));
        lemma_same_gates(a, b, k + 1);
    }
}

proof fn lemma_same_branches(a: Seq<CaseInvoke>, b: Seq<CaseInvoke>, k: nat)
    requires
        a.len() == b.len(),
        forall|i: int| 0 <= i < a.len() ==> same_branch(#[trigger] a[i], #[trigger] b[i]),
    ensures
        same_branches(a, b, k),
    decreases a.len() - k,
{
    if k < a.len() {
        assert(same_branch(a[k as int], b[k as int]));
        lemma_same_branches(a, b, k + 1);
    }
}

fn copy_gates(list: &Vec<Gate>) -> (r: Vec<Gate>)
    ensures
        same_gates(list@, r@, 0),
    decreases list@, 1int,
{
    let mut r: Vec<Gate> = Vec::new();
    let mut k: usize = 0;
    while k < list.len()
        invariant
            k <= list@.len(),
            r@.len() == k,
            forall|i: int| 0 <= i < k ==> same_gate(#[trigger] list@[i], #[trigger] r@[i]),
        decreases list@.len() - k,
    {
        let gate = copy_gate(&list[k]);
        r.push(gate);
        k = k + 1;
    }
    proof {
        lemma_same_gates(list@, r@, 0);
    }
    r
}

fn copy_branches(list: &Vec<CaseInvoke>) -> (r: Vec<CaseInvoke>)
    ensures
        same_branches(list@, r@, 0),
    decreases list@, 1int,
{
    let mut r: Vec<CaseInvoke> = Vec::new();
    let mut k: usize = 0;
    while k < list.len()
        invariant
            k <= list@.len(),
            r@.len() == k,
            forall|i: int| 0 <= i < k ==> same_branch(#[trigger] list@[i], #[trigger] r@[i]),
        decreases list@.len() - k,
    {
        let branch = copy_branch(&list[k]);
        r.push(branch);
        k = k + 1;
    }
    proof {
        lemma_same_branches(list@, r@, 0);
    }
    r
}

fn copy_branch(branch: &CaseInvoke) -> (r: CaseInvoke)
    ensures
        same_branch(*branch, r),
    decreases branch, 0int,
{
    match branch {
        CaseInvoke::AbstractGateCall(name, ins) => CaseInvoke::AbstractGateCall(
            name.clone(),
            copy_wires(ins),
        ),
        CaseInvoke::AbstractAnonCall(ins, x, y, gates) => CaseInvoke::AbstractAnonCall(
            copy_wires(ins),
            *x,
            *y,
            copy_gates(gates),
        ),
    }
}

fn copy_body(body: &ForLoopBody) -> (r: ForLoopBody)
    ensures
        same_body(*body, r),
    decreases body, 0int,
{
    match body {
        ForLoopBody::IterExprCall(name, outs, ins) => ForLoopBody::IterExprCall(
            name.clone(),
            copy_list(outs),
            copy_list(ins),
        ),
        ForLoopBody::IterExprAnonCall(outs, ins, x, y, gates) => ForLoopBody::IterExprAnonCall(
            copy_list(outs),
            copy_list(ins),
            *x,
            *y,
            copy_gates(gates),
        ),
    }
}

fn copy_gate(gate: &Gate) -> (r: Gate)
    ensures
        same_gate(*gate, r),
    decreases gate, 0int,
{
    match gate {
        Gate::Constant(out, x) => Gate::Constant(*out, to_value(x.as_slice())),
        Gate::AssertZero(a) => Gate::AssertZero(*a),
        Gate::Copy(out, a) => Gate::Copy(*out, *a),
        Gate::Add(out, a, b) => Gate::Add(*out, *a, *b),
        Gate::Mul(out, a, b) => Gate::Mul(*out, *a, *b),
        Gate::AddConstant(out, a, x) => Gate::AddConstant(*out, *a, to_value(x.as_slice())),
        Gate::MulConstant(out, a, x) => Gate::MulConstant(*out, *a, to_value(x.as_slice())),
        Gate::And(out, a, b) => Gate::And(*out, *a, *b),
        Gate::Xor(out, a, b) => Gate::Xor(*out, *a, *b),
        Gate::Not(out, a) => Gate::Not(*out, *a),
        Gate::Instance(out) => Gate::Instance(*out),
        Gate::Witness(out) => Gate::Witness(*out),
        Gate::Free(first, last) => Gate::Free(*first, *last),
        Gate::Call(name, outs, ins) => Gate::Call(
            name.clone(),
            copy_wires(outs),
            copy_wires(ins),
        ),
        Gate::AnonCall(outs, ins, x, y, gates) => Gate::AnonCall(
            copy_wires(outs),
            copy_wires(ins),
            *x,
            *y,
            copy_gates(gates),
        ),
        Gate::Switch(c, outs, cases, branches) => Gate::Switch(
            *c,
            copy_wires(outs),
            copy_values(cases),
            copy_branches(branches),
        ),
        Gate::For(name, x, y, outs, body) => Gate::For(
            name.clone(),
            *x,
            *y,
            copy_wires(outs),
            copy_body(body),
        ),
    }
}

impl Clone for IterExprWireNumber {
    fn clone(&self) -> (r: Self)
        ensures
            same_expression(*self, r),
    {
        copy_expression(self)
    }
}

impl Clone for IterExprListElement {
    fn clone(&self) -> (r: Self)
        ensures
            same_element(*self, r),
    {
        copy_element(self)
    }
}

impl Clone for Gate {
    fn clone(&self) -> (r: Self)
        ensures
            same_gate(*self, r),
    {
        copy_gate(self)
    }
}

impl Clone for CaseInvoke {
    fn clone(&self) -> (r: Self)
        ensures
            same_branch(*self, r),
    {
        copy_branch(self)
    }
}

impl Clone for ForLoopBody {
    fn clone(&self) -> (r: Self)
        ensures
            same_body(*self, r),
    {
        copy_body(self)
    }
}

/// Whether two gates of function bodies are the same.
pub open spec fn same_body_gate(a: gates::Gate, b: gates::Gate) -> bool
    decreases a, 0int,
{
    match a {
        gates::Gate::Constant(out, x) => b matches gates::Gate::Constant(o, y) && out == o && x@
            == y@,
        gates::Gate::AddConstant(out, i, x) => b matches gates::Gate::AddConstant(o, j, y) && out
            == o && i == j && x@ == y@,
        gates::Gate::MulConstant(out, i, x) => b matches gates::Gate::MulConstant(o, j, y) && out
            == o && i == j && x@ == y@,
        gates::Gate::Call(n, outs, ins) => b matches gates::Gate::Call(m, o, i) && n@ == m@
            && outs@ == o@ && ins@ == i@,
        gates::Gate::Switch(c, outs, ins, x, y, cases, blocks) => b matches gates::Gate::Switch(
            d,
            o,
            i,
            z,
            w,
            values,
            others,
        ) && c == d && outs@ == o@ && ins@ == i@ && x == z && y == w && bytes_of(cases@)
            == bytes_of(values@) && same_blocks(blocks@, others@, 0),
        gates::Gate::Function(n, x, y, z, w, body) => b matches gates::Gate::Function(
            m,
            p,
            q,
            s,
            t,
            other,
        ) && n@ == m@ && x == p && y == q && z == s && w == t && same_body_gates(
            body@,
            other@,
            0,
        ),
        _ => b == a,
    }
}

/// Whether two function bodies have the same gates, from the `k`-th on.
pub open spec fn same_body_gates(a: Seq<gates::Gate>, b: Seq<gates::Gate>, k: nat) -> bool
    decreases a, a.len() - k,
{
    &&& a.len() == b.len()
    &&& k < a.len() ==> same_body_gate(a[k as int], b[k as int]) && same_body_gates(a, b, k + 1)
}

/// Whether two lists have the same blocks, from the `k`-th on.
pub open spec fn same_blocks(a: Seq<Block>, b: Seq<Block>, k: nat) -> bool
    decreases a, a.len() - k,
{
    &&& a.len() == b.len()
    &&& k < a.len() ==> same_body_gates(a[k as int].0@, b[k as int].0@, 0) && same_blocks(
        a,
        b,
        k + 1,
    )
}

proof fn lemma_same_body_gates(a: Seq<gates::Gate>, b: Seq<gates::Gate>, k: nat)
    requires
        a.len() == b.len(),
        forall|i: int| 0 <= i < a.len() ==> same_body_gate(#[trigger] a[i], #[trigger] b[i]),
    ensures
        same_body_gates(a, b, k),
    decreases a.len() - k,
{
    if k < a.len() {
        assert(same_body_gate(a[k as int], b[k as int]));
        lemma_same_body_gates(a, b, k + 1);
    }
}

proof fn lemma_same_blocks(a: Seq<Block>, b: Seq<Block>, k: nat)
    requires
        a.len() == b.len(),
        forall|i: int|
            0 <= i < a.len() ==> same_body_gates((#[trigger] a[i]).0@, (#[trigger] b[i]).0@, 0),
    ensures
        same_blocks(a, b, k),
    decreases a.len() - k,
{
    if k < a.len() {
        assert(same_body_gates(a[k as int].0@, b[k as int].0@, 0));
        lemma_same_blocks(a, b, k + 1);
    }
}

fn copy_body_gates(list: &Vec<gates::Gate>) -> (r: Vec<gates::Gate>)
    ensures
        same_body_gates(list@, r@, 0),
    decreases list@, 1int,
{
    let mut r: Vec<gates::Gate> = Vec::new();
    let mut k: usize = 0;
    while k < list.len()
        invariant
            k <= list@.len(),
            r@.len() == k,
            forall|i: int| 0 <= i < k ==> same_body_gate(#[trigger] list@[i], #[trigger] r@[i]),
        decreases list@.len() - k,
    {
        let gate = copy_body_gate(&list[k]);
        r.push(gate);
        k = k + 1;
    }
    proof {
        lemma_same_body_gates(list@, r@, 0);
    }
    r
}

fn copy_blocks(list: &Vec<Block>) -> (r: Vec<Block>)
    ensures
        same_blocks(list@, r@, 0),
    decreases list@, 1int,
{
    let mut r: Vec<Block> = Vec::new();
    let mut k: usize = 0;
    while k < list.len()
        invariant
            k <= list@.len(),
            r@.len() == k,
            forall|i: int|
                0 <= i < k ==> same_body_gates((#[trigger] list@[i]).0@, (#[trigger] r@[i]).0@, 0),
        decreases list@.len() - k,
    {
        let copied = copy_body_gates(&list[k].0);
        r.push(Block(copied));
        k = k + 1;
    }
    proof {
        lemma_same_blocks(list@, r@, 0);
    }
    r
}

fn copy_body_gate(gate: &gates::Gate) -> (r: gates::Gate)
    ensures
        same_body_gate(*gate, r),
    decreases gate, 0int,
{
    match gate {
        gates::Gate::Constant(out, x) => gates::Gate::Constant(*out, to_value(x.as_slice())),
        gates::Gate::AssertZero(a) => gates::Gate::AssertZero(*a),
        gates::Gate::Copy(out, a) => gates::Gate::Copy(*out, *a),
        gates::Gate::Add(out, a, b) => gates::Gate::Add(*out, *a, *b),
        gates::Gate::Mul(out, a, b) => gates::Gate::Mul(*out, *a, *b),
        gates::Gate::AddConstant(out, a, x) => gates::Gate::AddConstant(
            *out,
            *a,
            to_value(x.as_slice()),
        ),
        gates::Gate::MulConstant(out, a, x) => gates::Gate::MulConstant(
            *out,
            *a,
            to_value(x.as_slice()),
        ),
        gates::Gate::And(out, a, b) => gates::Gate::And(*out, *a, *b),
        gates::Gate::Xor(out, a, b) => gates::Gate::Xor(*out, *a, *b),
        gates::Gate::Not(out, a) => gates::Gate::Not(*out, *a),
        gates::Gate::Instance(out) => gates::Gate::Instance(*out),
        gates::Gate::Witness(out) => gates::Gate::Witness(*out),
        gates::Gate::Free(first, last) => gates::Gate::Free(*first, *last),
        gates::Gate::Call(name, outs, ins) => gates::Gate::Call(
            name.clone(),
            copy_ids(outs),
            copy_ids(ins),
        ),
        gates::Gate::Switch(c, outs, ins, x, y, cases, blocks) => gates::Gate::Switch(
            *c,
            copy_ids(outs),
            copy_ids(ins),
            *x,
            *y,
            copy_values(cases),
            copy_blocks(blocks),
        ),
        gates::Gate::Function(name, x, y, z, w, body) => gates::Gate::Function(
            name.clone(),
            *x,
            *y,
            *z,
            *w,
            copy_body_gates(body),
        ),
    }
}

impl Clone for gates::Gate {
    fn clone(&self) -> (r: Self)
        ensures
            same_body_gate(*self, r),
    {
        copy_body_gate(self)
    }
}

impl Clone for Block {
    fn clone(&self) -> (r: Self)
        ensures
            same_body_gates(self.0@, r.0@, 0),
    {
        Block(copy_body_gates(&self.0))
    }
}

} // verus!
