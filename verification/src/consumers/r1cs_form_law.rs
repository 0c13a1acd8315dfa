//! What the written form of a constraint system holds.

use crate::consumers::r1cs_builder::{
    assignments_of, batches, gathered_all, gathered_variables, holds, joined, longest, padded,
    padded_all, systems_of, trimmed_len, R1csStatement, R1csV, CONSTRAINTS_PER_MESSAGE,
    VALUES_PER_MESSAGE,
};
use crate::number::{le_bytes, le_value, lemma_trailing_zeros, lemma_value_of_bytes};
use crate::structs::r1cs::VariableV;
use vstd::prelude::*;

verus! {

/// Padding gives bytes a length, keeps them, and keeps the number that they stand for.
pub proof fn padding_keeps_value(bytes: Seq<u8>, len: nat)
    requires
        bytes.len() <= len,
    ensures
        padded(bytes, len).len() == len,
        padded(bytes, len).take(bytes.len() as int) == bytes,
        le_value(padded(bytes, len)) == le_value(bytes),
{
    assert(padded(bytes, len).take(bytes.len() as int) =~= bytes);
    lemma_trailing_zeros(bytes, (len - bytes.len()) as nat);
}

/// The longest of several byte strings is as long as one of them, and no other is longer.
pub proof fn longest_is_longest(list: Seq<Seq<u8>>)
    ensures
        forall|i: int| 0 <= i < list.len() ==> (#[trigger] list[i]).len() <= longest(list),
        list.len() > 0 ==> exists|i: int|
            0 <= i < list.len() && (#[trigger] list[i]).len() == longest(list),
    decreases list.len(),
{
    if list.len() > 0 {
        let front = list.drop_last();
        longest_is_longest(front);
        assert forall|i: int| 0 <= i < list.len() implies (#[trigger] list[i]).len() <= longest(
            list,
        ) by {
            if i < list.len() - 1 {
                assert(front[i] == list[i]);
            }
        }
        if list.last().len() == longest(list) {
            assert(list[list.len() - 1].len() == longest(list));
        } else {
            let i = choose|i: int|
                0 <= i < front.len() && (#[trigger] front[i]).len() == longest(front);
            assert(list[i].len() == longest(list));
        }
    }
}

/// Several byte strings that are padded to one length stand one after the other, each at its
/// own place.
pub proof fn padded_strings_in_places(list: Seq<Seq<u8>>, len: nat, i: int)
    requires
        forall|j: int| 0 <= j < list.len() ==> (#[trigger] list[j]).len() <= len,
        0 <= i < list.len(),
    ensures
        padded_all(list, len).len() == len * list.len(),
        len * i + len <= len * list.len(),
        padded_all(list, len).subrange(len * i, len * i + len) == padded(list[i], len),
    decreases list.len(),
{
    let n = list.len();
    let front = list.drop_last();
    let all = padded_all(list, len);
    lemma_padded_len(front, len);
    lemma_padded_len(list, len);
    assert(len * n == len * (n - 1) + len) by (nonlinear_arith)
        requires
            n > 0,
    ;
    if i == n - 1 {
        assert(list.last().len() <= len) by {
            assert(list[i].len() <= len);
        }
        assert(all.subrange(len * i, len * i + len) =~= padded(list[i], len));
    } else {
        assert forall|j: int| 0 <= j < front.len() implies (#[trigger] front[j]).len() <= len by {
            assert(list[j] == front[j]);
        }
        padded_strings_in_places(front, len, i);
        assert(front[i] == list[i]);
        assert(len * i >= 0) by (nonlinear_arith)
            requires
                i >= 0,
        ;
        assert(all.subrange(len * i, len * i + len) =~= padded_all(front, len).subrange(
            len * i,
            len * i + len,
        ));
    }
}

proof fn lemma_padded_len(list: Seq<Seq<u8>>, len: nat)
    requires
        forall|j: int| 0 <= j < list.len() ==> (#[trigger] list[j]).len() <= len,
    ensures
        padded_all(list, len).len() == len * list.len(),
    decreases list.len(),
{
    if list.len() > 0 {
        let front = list.drop_last();
        assert forall|j: int| 0 <= j < front.len() implies (#[trigger] front[j]).len() <= len by {
            assert(list[j] == front[j]);
        }
        lemma_padded_len(front, len);
        assert(list[list.len() - 1].len() <= len);
        assert(len * list.len() == len * front.len() + len) by (nonlinear_arith)
            requires
                list.len() == front.len() + 1,
        ;
    } else {
        assert(len * 0 == 0);
    }
}

/// Bytes without the zeros at their end stand for the same number, and do not end in zero.
pub proof fn trimming_keeps_value(bytes: Seq<u8>)
    ensures
        trimmed_len(bytes) <= bytes.len(),
        le_value(bytes.take(trimmed_len(bytes) as int)) == le_value(bytes),
        trimmed_len(bytes) > 0 ==> bytes[trimmed_len(bytes) - 1] != 0,
    decreases bytes.len(),
{
    if bytes.len() > 0 && bytes.last() == 0 {
        let front = bytes.drop_last();
        trimming_keeps_value(front);
        assert(front + Seq::new(1, |i: int| 0u8) =~= bytes);
        lemma_trailing_zeros(front, 1);
        assert(bytes.take(trimmed_len(front) as int) =~= front.take(trimmed_len(front) as int));
    } else {
        assert(bytes.take(bytes.len() as int) =~= bytes);
    }
}

/// A list that is cut into batches is put together again by joining them. All batches but the
/// last have the given length, and the last one is shorter.
pub proof fn batches_make_up_the_list<T>(list: Seq<T>, size: nat)
    requires
        size > 0,
    ensures
        batches(list, size).len() > 0,
        batches(list, size).flatten() == list,
        forall|i: int|
            0 <= i < batches(list, size).len() - 1 ==> (#[trigger] batches(list, size)[i]).len()
                == size,
        batches(list, size).last().len() < size,
    decreases list.len(),
{
    if list.len() < size {
        let all = seq![list];
        assert(all.drop_first() =~= Seq::empty());
        assert(all.flatten() =~= list) by {
            reveal_with_fuel(Seq::flatten, 2);
        }
    } else {
        let first = list.take(size as int);
        let rest = list.skip(size as int);
        batches_make_up_the_list(rest, size);
        let later = batches(rest, size);
        let all = seq![first] + later;
        assert(all.drop_first() =~= later);
        assert(all.first() == first);
        assert(first + rest =~= list);
        assert forall|i: int| 0 <= i < all.len() - 1 implies (#[trigger] all[i]).len() == size by {
            if i > 0 {
                assert(all[i] == later[i - 1]);
            }
        }
        assert(all.last() == later.last());
    }
}

/// Variables whose values have one length are told apart again after they were put together.
pub proof fn gathered_variables_split(list: Seq<VariableV>, len: nat)
    requires
        forall|i: int| 0 <= i < list.len() ==> (#[trigger] list[i]).value.len() == len,
    ensures
        gathered_variables(list).split() == list,
{
    let vars = gathered_variables(list);
    let n = list.len();
    lemma_joined_len(list, len);
    if n > 0 {
        assert((len * n) / n == len as int) by {
            vstd::arithmetic::div_mod::lemma_div_multiples_vanish(len as int, n as int);
            assert(len * n == n * len) by (nonlinear_arith);
        }
        assert(vars.stride() == len);
        assert forall|i: int| 0 <= i < n implies #[trigger] vars.split()[i] == list[i] by {
            lemma_joined_place(list, len, i);
            assert(len * (i + 1) == len * i + len) by (nonlinear_arith);
        }
    }
    assert(vars.split() =~= list);
}

proof fn lemma_joined_len(list: Seq<VariableV>, len: nat)
    requires
        forall|i: int| 0 <= i < list.len() ==> (#[trigger] list[i]).value.len() == len,
    ensures
        joined(list).len() == len * list.len(),
    decreases list.len(),
{
    if list.len() > 0 {
        let front = list.drop_last();
        assert forall|i: int| 0 <= i < front.len() implies (#[trigger] front[i]).value.len()
            == len by {
            assert(list[i] == front[i]);
        }
        lemma_joined_len(front, len);
        assert(list[list.len() - 1].value.len() == len);
        assert(len * list.len() == len * front.len() + len) by (nonlinear_arith)
            requires
                list.len() == front.len() + 1,
        ;
    } else {
        assert(len * 0 == 0);
    }
}

proof fn lemma_joined_place(list: Seq<VariableV>, len: nat, i: int)
    requires
        forall|j: int| 0 <= j < list.len() ==> (#[trigger] list[j]).value.len() == len,
        0 <= i < list.len(),
    ensures
        0 <= len * i,
        len * i + len <= joined(list).len(),
        joined(list).subrange(len * i, len * i + len) == list[i].value,
    decreases list.len(),
{
    let n = list.len();
    let front = list.drop_last();
    assert forall|j: int| 0 <= j < front.len() implies (#[trigger] front[j]).value.len() == len by {
        assert(list[j] == front[j]);
    }
    lemma_joined_len(front, len);
    lemma_joined_len(list, len);
    assert(len * i >= 0) by (nonlinear_arith)
        requires
            i >= 0,
    ;
    assert(list[n - 1].value.len() == len);
    if i == n - 1 {
        assert(joined(list).subrange(len * i, len * i + len) =~= list[i].value);
    } else {
        lemma_joined_place(front, len, i);
        assert(front[i] == list[i]);
        assert(joined(list).subrange(len * i, len * i + len) =~= joined(front).subrange(
            len * i,
            len * i + len,
        ));
    }
}

/// Whether the values of variables all have one length.
pub open spec fn of_length(list: Seq<VariableV>, len: nat) -> bool {
    forall|i: int| 0 <= i < list.len() ==> (#[trigger] list[i]).value.len() == len
}

/// A written statement holds what was written: the instance variables with their values, the
/// constraints in order, as many variables as are in use, and a field maximum. No message
/// holds more constraints than one may.
pub proof fn statement_holds_system(statement: R1csStatement, v: R1csV, len: nat)
    requires
        holds(statement, v),
        of_length(v.instances, len),
    ensures
        statement.header.instance_variables@.split() == v.instances,
        systems_of(statement.constraint_systems@).flatten() == v.constraints,
        forall|i: int|
            0 <= i < statement.constraint_systems@.len() ==> (#[trigger] systems_of(
                statement.constraint_systems@,
            )[i]).len() <= CONSTRAINTS_PER_MESSAGE,
        statement.header.free_variable_id == v.free_id,
        !v.use_witness ==> statement.witnesses@.len() == 0,
        v.use_witness ==> statement.witnesses@.len() > 0,
{
    gathered_variables_split(v.instances, len);
    batches_make_up_the_list(v.constraints, CONSTRAINTS_PER_MESSAGE as nat);
    let systems = systems_of(statement.constraint_systems@);
    assert(systems.len() == statement.constraint_systems@.len());
    assert forall|i: int| 0 <= i < systems.len() implies (#[trigger] systems[i]).len()
        <= CONSTRAINTS_PER_MESSAGE by {
        if i == systems.len() - 1 {
            assert(systems[i] == systems.last());
        }
    }
    let assigned = assignments_of(statement.witnesses@);
    assert(assigned.len() == statement.witnesses@.len());
    if v.use_witness {
        batches_make_up_the_list(v.privates, VALUES_PER_MESSAGE as nat);
        assert(assigned.len() == batches(v.privates, VALUES_PER_MESSAGE as nat).len());
    }
}

/// The messages of a written statement hold the private values in order, in messages that are
/// full but for the last.
pub proof fn statement_holds_privates(statement: R1csStatement, v: R1csV, len: nat, i: int)
    requires
        holds(statement, v),
        v.use_witness,
        of_length(v.privates, len),
        0 <= i < statement.witnesses@.len(),
    ensures
        ({
            let cut = batches(v.privates, VALUES_PER_MESSAGE as nat);
            &&& cut.len() == statement.witnesses@.len()
            &&& cut.flatten() == v.privates
            &&& statement.witnesses@[i].assigned_variables@.split() == cut[i]
        }),
{
    let size = VALUES_PER_MESSAGE as nat;
    let cut = batches(v.privates, size);
    batches_make_up_the_list(v.privates, size);
    let assigned = assignments_of(statement.witnesses@);
    assert(assigned == gathered_all(cut));
    assert(assigned.len() == cut.len());
    assert(assigned[i] == statement.witnesses@[i].assigned_variables@);
    lemma_batch_lengths(v.privates, size, len, i);
    gathered_variables_split(cut[i], len);
    if i > 0 && cut[i].len() == 0 {
        assert(assigned[i].split() =~= cut[i]);
    } else {
        assert(assigned[i] == gathered_variables(cut[i]));
    }
}

proof fn lemma_batch_lengths(list: Seq<VariableV>, size: nat, len: nat, i: int)
    requires
        size > 0,
        of_length(list, len),
        0 <= i < batches(list, size).len(),
    ensures
        of_length(batches(list, size)[i], len),
    decreases list.len(),
{
    if list.len() >= size {
        let first = list.take(size as int);
        let rest = list.skip(size as int);
        let all = seq![first] + batches(rest, size);
        if i == 0 {
            assert(all[0] == first);
            assert forall|j: int| 0 <= j < first.len() implies (#[trigger] first[j]).value.len()
                == len by {
                assert(list[j] == first[j]);
            }
        } else {
            assert forall|j: int| 0 <= j < rest.len() implies (#[trigger] rest[j]).value.len()
                == len by {
                assert(list[j + size] == rest[j]);
            }
            lemma_batch_lengths(rest, size, len, i - 1);
            assert(all[i] == batches(rest, size)[i - 1]);
        }
    }
}

/// A new instance variable is the first free one, which then is in use. It is listed last,
/// with a value of the length of the field that reads back as the one that was given. A value
/// is refused where its bytes are more than that.
pub proof fn instance_variables_are_listed(v: R1csV, x: nat)
    ensures
        ({
            let (w, r) = v.with_instance(x);
            &&& le_bytes(x).len() > v.byte_len ==> r is Err
            &&& r is Err ==> w == v
            &&& r is Ok ==> {
                &&& r->Ok_0 == v.free_id && w.free_id == v.free_id + 1
                &&& w.instances.len() == v.instances.len() + 1
                &&& w.instances.drop_last() == v.instances
                &&& w.instances.last().id == v.free_id
                &&& w.instances.last().value.len() == v.byte_len
                &&& le_value(w.instances.last().value) == x
                &&& w.constraints == v.constraints && w.privates == v.privates
            }
        }),
{
    let (w, r) = v.with_instance(x);
    if r is Ok {
        lemma_value_of_bytes(x);
        padding_keeps_value(le_bytes(x), v.byte_len);
        assert(w.instances.drop_last() =~= v.instances);
    }
}

/// A new private variable is the first free one, which then is in use. Where values are known
/// it is listed last, with a value of the length of the field that reads back as the one that
/// was given; a value must be given just where values are known.
pub proof fn private_variables_are_listed(v: R1csV, x: Option<nat>)
    ensures
        ({
            let (w, r) = v.with_witness(x);
            &&& x is Some != v.use_witness ==> r is Err
            &&& w.constraints == v.constraints && w.instances == v.instances
            &&& r is Ok ==> r->Ok_0 == v.free_id && w.free_id == v.free_id + 1
            &&& r is Ok && !v.use_witness ==> w.privates == v.privates
            &&& r is Ok && v.use_witness ==> {
                &&& w.privates.len() == v.privates.len() + 1
                &&& w.privates.drop_last() == v.privates
                &&& w.privates.last().id == v.free_id
                &&& w.privates.last().value.len() == v.byte_len
                &&& le_value(w.privates.last().value) == x->Some_0
            }
        }),
{
    let (w, r) = v.with_witness(x);
    if r is Ok && v.use_witness {
        lemma_value_of_bytes(x->Some_0);
        padding_keeps_value(le_bytes(x->Some_0), v.byte_len);
        assert(w.privates.drop_last() =~= v.privates);
    }
}

/// A field of degree one with a characteristic above zero is accepted, and no other. The
/// maximum of the field is one less than its characteristic, and a value of the field fits
/// into as many bytes as the characteristic has without the zeros at its end.
pub proof fn field_is_written(v: R1csV, modulus: Seq<u8>, degree: u32)
    ensures
        ({
            let (w, r) = v.over_field(modulus, degree);
            &&& r is Ok <==> le_value(modulus) > 0 && degree == 1
            &&& w.modulus == le_value(modulus)
            &&& r is Ok ==> {
                &&& w.field_maximum is Some
                &&& le_value(w.field_maximum->Some_0) + 1 == le_value(modulus)
                &&& le_value(modulus.take(w.byte_len as int)) == le_value(modulus)
                &&& w.byte_len <= modulus.len()
            }
            &&& w.constraints == v.constraints
            &&& w.instances == v.instances
            &&& w.privates == v.privates
            &&& w.free_id == v.free_id
        }),
{
    trimming_keeps_value(modulus);
    if le_value(modulus) > 0 {
        lemma_value_of_bytes((le_value(modulus) - 1) as nat);
    }
}

/// A variable can be taken into use as long as its number fits into 64 bits and is not the
/// last such number. It is the first free one, and then is free no more.
pub proof fn variables_are_taken_in_order(v: R1csV)
    ensures
        ({
            let (w, r) = v.allocated();
            &&& r is Ok <==> v.free_id < u64::MAX
            &&& r is Ok ==> r->Ok_0 == v.free_id && w.free_id == v.free_id + 1
            &&& r is Err ==> w == v
        }),
{
}

/// Where all instance values have the length of the field, an instance value is accepted just
/// where its bytes are no more than that and a variable is left.
pub proof fn instance_values_are_accepted(v: R1csV, x: nat)
    requires
        of_length(v.instances, v.byte_len),
    ensures
        v.with_instance(x).1 is Ok <==> le_bytes(x).len() <= v.byte_len && v.free_id < u64::MAX,
        v.with_instance(x).1 is Ok ==> of_length(v.with_instance(x).0.instances, v.byte_len),
{
    if le_bytes(x).len() <= v.byte_len {
        padding_keeps_value(le_bytes(x), v.byte_len);
        if v.instances.len() > 0 {
            assert(v.instances[0].value.len() == v.byte_len);
        }
    }
    if v.with_instance(x).1 is Ok {
        instance_variables_are_listed(v, x);
        let list = v.with_instance(x).0.instances;
        assert forall|i: int| 0 <= i < list.len() implies (#[trigger] list[i]).value.len()
            == v.byte_len by {
            if i < v.instances.len() {
                assert(list.drop_last()[i] == list[i]);
                assert(v.instances[i].value.len() == v.byte_len);
            } else {
                assert(list[i] == list.last());
            }
        }
    }
}

/// A witness value that is known is accepted just where its bytes are no more than the field
/// has and a variable is left; one that is not known, just where a variable is left.
pub proof fn witness_values_are_accepted(v: R1csV, x: nat)
    ensures
        v.use_witness ==> (v.with_witness(Some(x)).1 is Ok <==> le_bytes(x).len() <= v.byte_len
            && v.free_id < u64::MAX),
        !v.use_witness ==> (v.with_witness(None).1 is Ok <==> v.free_id < u64::MAX),
{
}

/// Without corrections and with all values known, an operation on variables that have values is
/// accepted as long as a variable is left and a reduced value fits. Its result is the first
/// free variable.
pub proof fn operations_are_accepted(v: R1csV, a: u64, b: u64, c: nat)
    requires
        v.use_witness,
        !v.use_correction,
        v.modulus > 0,
        v.free_id < u64::MAX,
        forall|n: nat| n < v.modulus ==> #[trigger] le_bytes(n).len() <= v.byte_len,
        v.assignment.contains_key(a),
        v.assignment.contains_key(b),
    ensures
        v.sum(a as nat, b as nat).1 == Ok::<nat, Seq<char>>(v.free_id),
        v.product(a as nat, b as nat).1 == Ok::<nat, Seq<char>>(v.free_id),
        v.constant_sum(a as nat, c).1 == Ok::<nat, Seq<char>>(v.free_id),
        v.constant_product(a as nat, c).1 == Ok::<nat, Seq<char>>(v.free_id),
{
    let m = v.modulus;
    assert forall|total: nat| (#[trigger] v.result_of(Ok(total))).1 == Ok::<
        (u64, u64),
        Seq<char>,
    >((v.free_id as u64, 0)) by {
        assert(total % m < m);
        assert(le_bytes(total % m).len() <= v.byte_len);
    }
}

} // verus!
