use zki_sieve::consumers::to_r1cs::pad_to_max;
use zki_sieve::error::{decimal_text, Error};
use zki_sieve::number::BigUint;
use zki_sieve::structs::iterators::{
    evaluate_iterexpr, evaluate_iterexpr_list, IterExprListElement, IterExprWireNumber,
    IteratorTable,
};
use zki_sieve::structs::r1cs::{CircuitHeader, Variables};
use zki_sieve::structs::relation::{contains_feature, ARITH, BOOL, FOR, SIMPLE};
use zki_sieve::structs::wire::{expand_wirelist, WireListElement};

fn number(n: u128) -> BigUint {
    BigUint::from_bytes_le(&n.to_le_bytes())
}

fn bytes(n: u128) -> Vec<u8> {
    number(n).to_bytes_le()
}

#[test]
fn numbers_are_kept_in_their_shortest_bytes() {
    assert_eq!(BigUint::from_bytes_le(&[1, 2, 0, 0]).to_bytes_le(), vec![1, 2]);
    assert_eq!(BigUint::from_bytes_le(&[]).to_bytes_le(), vec![0]);
    assert_eq!(BigUint::zero().to_bytes_le(), vec![0]);
    assert_eq!(BigUint::one().to_bytes_le(), vec![1]);
    assert_eq!(bytes(65536), vec![0, 0, 1]);
}

#[test]
fn numbers_are_computed_with() {
    let a = number(1_000_000_007);
    let b = number(998_244_353);
    assert_eq!(a.plus(&b).to_bytes_le(), bytes(1_998_244_360));
    assert_eq!(a.times(&b).to_bytes_le(), bytes(998_244_359_987_710_471));
    assert_eq!(a.minus(&b).to_bytes_le(), bytes(1_755_654));
    assert_eq!(a.divided_by(&number(1000)).to_bytes_le(), bytes(1_000_000));
    assert_eq!(a.modulo(&number(1000)).to_bytes_le(), bytes(7));
    assert_eq!(number(0b1100).bitand(&number(0b1010)).to_bytes_le(), bytes(0b1000));
    assert_eq!(number(0b1100).bitxor(&number(0b1010)).to_bytes_le(), bytes(0b0110));
    assert_eq!(number(1001).half().to_bytes_le(), bytes(500));
    assert!(number(1001).is_odd() && !number(1000).is_odd());
    assert!(number(0).is_zero() && !number(256).is_zero());
    assert!(number(1).is_one() && !number(257).is_one());
}

#[test]
fn errors_keep_their_words() {
    assert_eq!(Error::new("What went wrong").to_string(), "What went wrong");
    assert_eq!(decimal_text(0), "0");
    assert_eq!(decimal_text(18446744073709551615), "18446744073709551615");
}

#[test]
fn coefficients_are_padded_to_the_longest() {
    assert_eq!(pad_to_max(vec![vec![1], vec![2, 3, 4]]), vec![1, 0, 0, 2, 3, 4]);
    assert_eq!(pad_to_max(vec![vec![], vec![]]), Vec::<u8>::new());
    assert_eq!(pad_to_max(vec![vec![7, 8]]), vec![7, 8]);
}

#[test]
fn wire_lists_are_expanded() {
    let list = vec![
        WireListElement::Wire(5),
        WireListElement::WireRange(7, 9),
        WireListElement::Wire(5),
    ];
    assert_eq!(expand_wirelist(&list).unwrap(), vec![5, 7, 8, 9, 5]);
    assert_eq!(expand_wirelist(&vec![]).unwrap(), Vec::<u64>::new());
    let bad = vec![WireListElement::WireRange(9, 7)];
    assert!(expand_wirelist(&bad).is_err());
    let last = vec![WireListElement::WireRange(u64::MAX - 1, u64::MAX)];
    assert_eq!(expand_wirelist(&last).unwrap(), vec![u64::MAX - 1, u64::MAX]);
}

fn constant(n: u64) -> Box<IterExprWireNumber> {
    Box::new(IterExprWireNumber::Const(n))
}

fn iterator() -> Box<IterExprWireNumber> {
    Box::new(IterExprWireNumber::Iterator("i".to_string()))
}

#[test]
fn iterator_expressions_are_evaluated() {
    let mut table = IteratorTable::new();
    table.insert(&"i".to_string(), 10);
    let value = |e: &IterExprWireNumber| evaluate_iterexpr(e, &table).unwrap();
    assert_eq!(value(&IterExprWireNumber::Add(iterator(), constant(5))), 15);
    assert_eq!(value(&IterExprWireNumber::Sub(iterator(), constant(4))), 6);
    assert_eq!(value(&IterExprWireNumber::Mul(iterator(), iterator())), 100);
    assert_eq!(value(&IterExprWireNumber::DivConst(iterator(), 3)), 3);

    let list = vec![
        IterExprListElement::Single(IterExprWireNumber::Const(2)),
        IterExprListElement::Range(*iterator(), IterExprWireNumber::Add(iterator(), constant(2))),
    ];
    assert_eq!(evaluate_iterexpr_list(&list, &table).unwrap(), vec![2, 10, 11, 12]);
}

#[test]
fn iterator_expressions_out_of_range_are_refused() {
    let mut table = IteratorTable::new();
    let name = "i".to_string();
    assert!(evaluate_iterexpr(&iterator(), &table).is_err());
    table.insert(&name, 3);
    assert_eq!(table.get(&name), Some(3));
    let out_of_range = |e: IterExprWireNumber| {
        assert_eq!(
            evaluate_iterexpr(&e, &table).err().unwrap().to_string(),
            "Iterator expression out of range"
        );
    };
    out_of_range(IterExprWireNumber::Sub(iterator(), constant(4)));
    out_of_range(IterExprWireNumber::Add(iterator(), constant(u64::MAX)));
    out_of_range(IterExprWireNumber::Mul(iterator(), constant(u64::MAX)));
    out_of_range(IterExprWireNumber::DivConst(iterator(), 0));
    table.insert(&name, 4);
    assert_eq!(table.get(&name), Some(4));
    table.remove(&name);
    assert_eq!(table.get(&name), None);
}

#[test]
fn features_are_looked_up_in_masks() {
    assert!(contains_feature(ARITH, ARITH));
    assert!(!contains_feature(ARITH, BOOL));
    assert!(contains_feature(BOOL, BOOL));
    assert!(!contains_feature(SIMPLE, FOR));
}

#[test]
fn variables_share_their_values() {
    let variables = Variables { variable_ids: vec![4, 9], values: Some(vec![1, 2, 3, 4]) };
    let split = variables.get_variables();
    assert_eq!(split.len(), 2);
    assert_eq!((split[0].id, split[0].value.clone()), (4, vec![1, 2]));
    assert_eq!((split[1].id, split[1].value.clone()), (9, vec![3, 4]));

    let none = Variables { variable_ids: vec![4], values: None };
    assert_eq!(none.get_variables()[0].value, Vec::<u8>::new());
}

#[test]
fn private_variables_are_those_that_are_not_public() {
    let header = CircuitHeader {
        instance_variables: Variables { variable_ids: vec![2, 4], values: None },
        free_variable_id: 7,
        field_maximum: None,
    };
    assert_eq!(header.list_witness_ids(), vec![1, 3, 5, 6]);
}
