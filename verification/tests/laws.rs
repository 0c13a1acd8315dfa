use zki_sieve::consumers::evaluator::{exp, Evaluator, PlaintextBackend, ZKBackend};
use zki_sieve::consumers::flatten::flatten_messages;
use zki_sieve::consumers::flattening::IRFlattener;
use zki_sieve::consumers::r1cs_builder::R1csStatement;
use zki_sieve::consumers::to_r1cs::ToR1CSConverter;
use zki_sieve::number::BigUint;
use zki_sieve::producers::build_gates::{
    BuildComplexGate, BuildGate, SwitchParams, NO_OUTPUT,
};
use zki_sieve::producers::builder::GateBuilder;
use zki_sieve::producers::from_r1cs::{
    check_header, convert_messages, zki_header_to_header, FromR1CSConverter,
};
use zki_sieve::producers::sink::MemorySink;
use zki_sieve::structs::function::{CaseInvoke, ForLoopBody, Function};
use zki_sieve::structs::gate::Gate;
use zki_sieve::structs::header::Header;
use zki_sieve::structs::instance::Instance;
use zki_sieve::structs::iterators::{IterExprListElement, IterExprWireNumber};
use zki_sieve::structs::message::Message;
use zki_sieve::structs::r1cs::{
    Assignment, BilinearConstraint, CircuitHeader, ConstraintSystem, R1csMessage, Variables,
};
use zki_sieve::structs::relation::{Relation, ARITH, BOOL, SIMPLE};
use zki_sieve::structs::wire::{Value, WireId, WireList, WireListElement};
use zki_sieve::structs::witness::Witness;

fn wires(ids: &[WireId]) -> WireList {
    ids.iter().map(|id| WireListElement::Wire(*id)).collect()
}

fn header(modulus: &[u8]) -> Header {
    Header { field_characteristic: modulus.to_vec(), ..Header::default() }
}

fn statement_with(
    modulus: &[u8],
    gate_mask: u16,
    functions: Vec<Function>,
    gates: Vec<Gate>,
    instances: &[Value],
    witnesses: &[Value],
) -> Vec<Message> {
    vec![
        Message::Instance(Instance {
            header: header(modulus),
            common_inputs: instances.to_vec(),
        }),
        Message::Witness(Witness { header: header(modulus), short_witness: witnesses.to_vec() }),
        Message::Relation(Relation {
            header: header(modulus),
            gate_mask,
            feat_mask: SIMPLE,
            functions,
            gates,
        }),
    ]
}

fn statement(gates: Vec<Gate>, instances: &[Value], witnesses: &[Value]) -> Vec<Message> {
    statement_with(&[101], ARITH, vec![], gates, instances, witnesses)
}

fn violations(messages: &Vec<Message>) -> Vec<String> {
    Evaluator::from_messages(messages, &mut PlaintextBackend::default()).get_violations()
}

fn refusal(gates: Vec<Gate>) -> String {
    let found = violations(&statement(gates, &[], &[]));
    assert_eq!(found.len(), 1);
    found[0].clone()
}

fn small(n: &BigUint) -> u64 {
    n.to_bytes_le().iter().rev().fold(0, |acc, b| acc * 256 + *b as u64)
}

fn plain(n: u64) -> BigUint {
    BigUint::from_bytes_le(&n.to_le_bytes())
}

/// The values of wires after a statement that must hold.
fn values(messages: &Vec<Message>, ids: &[WireId]) -> Vec<u64> {
    let evaluator = Evaluator::from_messages(messages, &mut PlaintextBackend::default());
    let found = ids.iter().map(|id| small(evaluator.get(*id).unwrap())).collect();
    assert_eq!(evaluator.get_violations(), Vec::<String>::new());
    found
}

// ---- Refusals ----

#[test]
fn nothing_to_verify_is_a_violation() {
    assert_eq!(violations(&vec![]), vec!["Did not receive any gate to verify."]);
    assert_eq!(
        violations(&statement(vec![], &[], &[])),
        vec!["Did not receive any gate to verify."]
    );
}

#[test]
fn wires_without_a_value_are_refused() {
    assert_eq!(refusal(vec![Gate::AssertZero(3)]), "No value given for wire_3");
    assert_eq!(refusal(vec![Gate::Copy(0, 7)]), "No value given for wire_7");
    assert_eq!(
        refusal(vec![Gate::Constant(0, vec![1]), Gate::Free(0, None), Gate::Copy(1, 0)]),
        "No value given for wire_0"
    );
    assert_eq!(
        refusal(vec![Gate::Constant(0, vec![1]), Gate::Free(0, Some(1))]),
        "No value given for wire_1"
    );
}

#[test]
fn wires_are_written_once() {
    assert_eq!(
        refusal(vec![Gate::Constant(0, vec![1]), Gate::Constant(0, vec![1])]),
        "Wire_0 already has a value in this scope."
    );
}

#[test]
fn missing_inputs_are_refused() {
    assert_eq!(refusal(vec![Gate::Instance(0)]), "Not enough instance to consume");
    assert_eq!(
        refusal(vec![Gate::Witness(0)]),
        "Missing witness value for PlaintextBackend"
    );
}

#[test]
fn calls_are_checked() {
    assert_eq!(
        refusal(vec![Gate::Call("f".to_string(), vec![], vec![])]),
        "Unknown function"
    );
    let copy = || Function::new("f".to_string(), 1, 1, 0, 0, vec![Gate::Copy(0, 1)]);
    let call = |outputs: &[WireId], inputs: &[WireId]| {
        violations(&statement_with(
            &[101],
            ARITH,
            vec![copy()],
            vec![
                Gate::Constant(0, vec![9]),
                Gate::Call("f".to_string(), wires(outputs), wires(inputs)),
            ],
            &[],
            &[],
        ))
    };
    assert_eq!(call(&[1], &[0]), Vec::<String>::new());
    assert_eq!(
        call(&[1, 2], &[0]),
        vec!["Wrong number of output variables in call to function f (Expected 1 / Got 2)."]
    );
    assert_eq!(
        call(&[1], &[]),
        vec!["Wrong number of input variables in call to function f (Expected 1 / Got 0)."]
    );
}

#[test]
fn fields_are_checked() {
    let gates = || vec![Gate::Constant(0, vec![0]), Gate::AssertZero(0)];
    let found = violations(&statement_with(&[0], ARITH, vec![], gates(), &[], &[]));
    assert_eq!(found[1], "Modulus cannot be zero.");
    let mut messages = statement(gates(), &[], &[]);
    if let Message::Relation(ref mut relation) = messages[2] {
        relation.header.field_degree = 2;
    }
    assert_eq!(violations(&messages)[1], "Field should be of degree 1");
    // A backend refuses to compute before it has a field.
    let mut backend = PlaintextBackend::default();
    assert_eq!(
        backend.add(&plain(1), &plain(1)).err().unwrap().to_string(),
        "Modulus is not initiated, used `set_field()` before calling."
    );
}

#[test]
fn messages_after_a_refusal_change_nothing() {
    let mut backend = PlaintextBackend::default();
    let mut evaluator = Evaluator::default();
    for message in statement(vec![Gate::Constant(0, vec![1]), Gate::AssertZero(0)], &[], &[]) {
        evaluator.ingest_message(&message, &mut backend);
    }
    for message in statement(vec![Gate::Constant(1, vec![0]), Gate::AssertZero(1)], &[], &[]) {
        evaluator.ingest_message(&message, &mut backend);
    }
    assert!(evaluator.get(1).is_err());
    assert_eq!(
        evaluator.get_violations(),
        vec!["Wire_0 (may be weighted) should be 0, while it is not"]
    );
}

// ---- Powers and switches ----

#[test]
fn powers_are_modular() {
    let mut backend = PlaintextBackend::default();
    backend.set_field(&[101], 1, false).unwrap();
    let power = |backend: &mut PlaintextBackend, base: u64, exponent: u64| {
        small(&exp(backend, &plain(base), &plain(exponent), &plain(101), false).unwrap())
    };
    assert_eq!(power(&mut backend, 3, 5), 243 % 101);
    assert_eq!(power(&mut backend, 2, 10), 1024 % 101);
    assert_eq!(power(&mut backend, 7, 1), 7);
    // The little theorem.
    assert_eq!(power(&mut backend, 42, 100), 1);
    assert_eq!(power(&mut backend, 0, 100), 0);
}

/// A switch between 11 times and 13 times the input, where the second branch also
/// claims that its input is zero.
fn switched(condition: u8, input: u8, strict: bool) -> Vec<Message> {
    let times = |factor: u8, strict: bool| {
        let mut gates = vec![Gate::MulConstant(0, 1, vec![factor])];
        if strict {
            gates.push(Gate::AssertZero(1));
        }
        CaseInvoke::AbstractAnonCall(wires(&[1]), 0, 0, gates)
    };
    statement(
        vec![
            Gate::Constant(0, vec![condition]),
            Gate::Constant(1, vec![input]),
            Gate::Switch(
                0,
                wires(&[2]),
                vec![vec![3], vec![5]],
                vec![times(11, false), times(13, strict)],
            ),
        ],
        &[],
        &[],
    )
}

#[test]
fn switches_give_what_the_selected_branch_gives() {
    assert_eq!(values(&switched(3, 4, false), &[0, 1, 2]), vec![3, 4, 44]);
    assert_eq!(values(&switched(5, 4, false), &[2]), vec![52]);
    // Cases are compared modulo the characteristic.
    assert_eq!(values(&switched(104, 9, false), &[2]), vec![99]);
    // No branch is selected.
    assert_eq!(values(&switched(4, 4, false), &[2]), vec![0]);
}

#[test]
fn assertions_count_in_the_selected_branch_only() {
    assert_eq!(values(&switched(3, 4, true), &[2]), vec![44]);
    assert_eq!(violations(&switched(5, 4, true)).len(), 1);
    assert_eq!(values(&switched(5, 0, true), &[2]), vec![0]);
}

#[test]
fn boolean_switches_give_what_the_selected_branch_gives() {
    let switch = |condition: u8| {
        statement_with(
            &[2],
            BOOL,
            vec![],
            vec![
                Gate::Constant(0, vec![condition]),
                Gate::Constant(1, vec![1]),
                Gate::Switch(
                    0,
                    wires(&[2]),
                    vec![vec![0], vec![1]],
                    vec![
                        CaseInvoke::AbstractAnonCall(wires(&[1]), 0, 0, vec![Gate::Not(0, 1)]),
                        CaseInvoke::AbstractAnonCall(wires(&[1]), 0, 0, vec![Gate::Copy(0, 1)]),
                    ],
                ),
            ],
            &[],
            &[],
        )
    };
    assert_eq!(values(&switch(0), &[2]), vec![0]);
    assert_eq!(values(&switch(1), &[2]), vec![1]);
}

#[test]
fn switches_take_as_many_values_as_their_largest_branch() {
    let branch = |gates: Vec<Gate>, instances: usize| {
        CaseInvoke::AbstractAnonCall(wires(&[]), instances, 0, gates)
    };
    let messages = statement(
        vec![
            Gate::Constant(0, vec![7]),
            Gate::Switch(
                0,
                wires(&[1]),
                vec![vec![7], vec![8]],
                vec![
                    branch(vec![Gate::Instance(0)], 1),
                    branch(vec![Gate::Instance(1), Gate::Instance(0)], 2),
                ],
            ),
            Gate::Instance(2),
        ],
        &[vec![10], vec![20], vec![30]],
        &[],
    );
    assert_eq!(values(&messages, &[1, 2]), vec![10, 30]);
}

#[test]
fn small_moduli_have_no_switches() {
    let mut messages = switched(3, 4, false);
    for message in messages.iter_mut() {
        if let Message::Relation(relation) = message {
            relation.header.field_characteristic = vec![1];
        }
    }
    assert_eq!(violations(&messages), vec!["The modulus of a switch must be at least 2"]);
}

// ---- Scopes ----

fn turn_over(name: &str, outputs: IterExprWireNumber) -> Gate {
    Gate::For(
        name.to_string(),
        1,
        3,
        vec![WireListElement::WireRange(1, 3)],
        ForLoopBody::IterExprAnonCall(
            vec![IterExprListElement::Single(outputs)],
            vec![IterExprListElement::Single(IterExprWireNumber::Sub(
                Box::new(IterExprWireNumber::Iterator(name.to_string())),
                Box::new(IterExprWireNumber::Const(1)),
            ))],
            0,
            0,
            vec![Gate::AddConstant(0, 1, vec![5])],
        ),
    )
}

#[test]
fn loops_are_unrolled_and_their_iterators_end() {
    let iterator = || IterExprWireNumber::Iterator("i".to_string());
    let gates = || vec![Gate::Constant(0, vec![2]), turn_over("i", iterator())];
    assert_eq!(values(&statement(gates(), &[], &[]), &[0, 1, 2, 3]), vec![2, 7, 12, 17]);
    // After the loop its iterator is unknown.
    let mut more = gates();
    more.push(turn_over("j", iterator()));
    assert_eq!(violations(&statement(more, &[], &[])).len(), 1);
}

#[test]
fn functions_see_neither_wires_nor_iterators_of_their_callers() {
    let body = vec![Gate::Add(0, 1, 1)];
    let double = Function::new("double".to_string(), 1, 1, 0, 0, body);
    let inner = Function::new("peek".to_string(), 1, 0, 0, 0, vec![Gate::Copy(0, 5)]);
    let messages = statement_with(
        &[101],
        ARITH,
        vec![double, inner],
        vec![
            Gate::Constant(5, vec![60]),
            Gate::Call("double".to_string(), wires(&[6]), wires(&[5])),
            Gate::Call("peek".to_string(), wires(&[7]), wires(&[])),
        ],
        &[],
        &[],
    );
    let evaluator = Evaluator::from_messages(&messages, &mut PlaintextBackend::default());
    assert_eq!(small(evaluator.get(5).unwrap()), 60);
    assert_eq!(small(evaluator.get(6).unwrap()), 19);
    assert!(evaluator.get(1).is_err());
    assert_eq!(evaluator.get_violations(), vec!["No value given for wire_5"]);
}

// ---- Flattening and constraint systems ----

fn flattened(messages: &Vec<Message>) -> Vec<Message> {
    let mut flattener = IRFlattener::new(MemorySink::default());
    let evaluator = Evaluator::from_messages(messages, &mut flattener);
    assert_eq!(evaluator.get_violations(), Vec::<String>::new());
    flattener.finish().into_messages()
}

#[test]
fn flattened_statements_hold_where_the_statements_do() {
    for (condition, input) in [(3, 4), (5, 4), (5, 0), (4, 7)] {
        let messages = switched(condition, input, true);
        let flat = flattened(&messages);
        assert_eq!(violations(&flat).is_empty(), violations(&messages).is_empty());
        for message in &flat {
            if let Message::Relation(relation) = message {
                assert_eq!(relation.feat_mask, SIMPLE);
                assert!(relation.gates.iter().all(|g| !matches!(
                    g,
                    Gate::Call(..) | Gate::AnonCall(..) | Gate::For(..) | Gate::Switch(..)
                )));
            }
        }
    }
}

#[test]
fn flatteners_wait_for_their_field() {
    let mut flattener = IRFlattener::new(MemorySink::default());
    assert_eq!(
        flattener.constant(plain(1)).err().unwrap().to_string(),
        "Builder has not been properly initialized."
    );
}

fn converted(messages: &Vec<Message>, use_correction: bool) -> R1csStatement {
    let mut converter = ToR1CSConverter::new(true, use_correction);
    let evaluator = Evaluator::from_messages(messages, &mut converter);
    assert_eq!(evaluator.get_violations(), Vec::<String>::new());
    converter.finish()
}

/// The sum of coefficients times values.
fn weigh(variables: &Variables, values: &[(u64, u128)]) -> u128 {
    variables
        .get_variables()
        .iter()
        .map(|term| {
            let coefficient = term.value.iter().rev().fold(0u128, |n, b| n * 256 + *b as u128);
            let value = values.iter().rev().find(|(id, _)| *id == term.id).unwrap().1;
            coefficient * value
        })
        .sum()
}

/// Whether a statement's own values meet all its constraints: as numbers, and modulo a
/// number.
fn met(statement: &R1csStatement, modulus: u128) -> (bool, bool) {
    let mut values: Vec<(u64, u128)> = Vec::new();
    let lists = std::iter::once(&statement.header.instance_variables)
        .chain(statement.witnesses.iter().map(|w| &w.assigned_variables));
    for list in lists {
        for v in list.get_variables() {
            values.push((v.id, v.value.iter().rev().fold(0, |n, b| n * 256 + *b as u128)));
        }
    }
    values.push((0, 1));
    let mut exactly = true;
    let mut modulo = true;
    for system in &statement.constraint_systems {
        for c in &system.constraints {
            let left = weigh(&c.linear_combination_a, &values)
                * weigh(&c.linear_combination_b, &values);
            let right = weigh(&c.linear_combination_c, &values);
            exactly = exactly && left == right;
            modulo = modulo && left % modulus == right % modulus;
        }
    }
    (exactly, modulo)
}

#[test]
fn constraint_systems_hold_where_the_statements_do() {
    for (condition, input) in [(3, 4), (5, 4), (5, 0), (4, 7)] {
        let messages = switched(condition, input, true);
        let holds = violations(&messages).is_empty();
        assert_eq!(met(&converted(&messages, true), 101), (holds, holds));
        assert_eq!(met(&converted(&messages, false), 101).1, holds);
    }
}

#[test]
fn constraint_systems_do_not_depend_on_the_witness() {
    for use_correction in [false, true] {
        for (condition, input) in [(3, 4), (5, 4), (4, 7)] {
            let messages = switched(condition, input, true);
            let known = converted(&messages, use_correction);
            assert!(!known.witnesses.is_empty());
            let public: Vec<Message> = messages
                .into_iter()
                .filter(|message| !matches!(message, Message::Witness(_)))
                .collect();
            let mut converter = ToR1CSConverter::new(false, use_correction);
            let evaluator = Evaluator::from_messages(&public, &mut converter);
            assert_eq!(evaluator.get_violations(), Vec::<String>::new());
            let unknown = converter.finish();
            assert_eq!(unknown.header, known.header);
            assert_eq!(unknown.constraint_systems, known.constraint_systems);
        }
    }
}

#[test]
fn boolean_constraint_systems_hold_where_the_statements_do() {
    for (x, y) in [(0u8, 0u8), (0, 1), (1, 0), (1, 1)] {
        let messages = statement_with(
            &[2],
            BOOL,
            vec![],
            vec![
                Gate::Instance(0),
                Gate::Witness(1),
                Gate::Xor(2, 0, 1),
                Gate::Not(3, 2),
                Gate::And(4, 3, 0),
                Gate::AssertZero(4),
            ],
            &[vec![x]],
            &[vec![y]],
        );
        let holds = violations(&messages).is_empty();
        assert_eq!(holds, !(x == 1 && y == 1));
        assert_eq!(met(&converted(&messages, true), 2), (holds, holds));
    }
}

#[test]
fn constraint_systems_refuse_long_values_and_missing_witnesses() {
    let messages = statement(vec![Gate::Instance(0)], &[vec![1, 1]], &[]);
    let mut converter = ToR1CSConverter::new(true, false);
    assert_eq!(
        Evaluator::from_messages(&messages, &mut converter).get_violations(),
        vec!["Vector is bigger than expected."]
    );
    let messages = statement(vec![Gate::Witness(0)], &[], &[]);
    let mut converter = ToR1CSConverter::new(true, false);
    assert_eq!(
        Evaluator::from_messages(&messages, &mut converter).get_violations(),
        vec!["Inconsistency."]
    );
    let mut converter = ToR1CSConverter::new(false, false);
    assert_eq!(
        Evaluator::from_messages(&messages, &mut converter).get_violations(),
        Vec::<String>::new()
    );
    assert_eq!(converter.finish().witnesses.len(), 0);
    let mut converter = ToR1CSConverter::new(true, false);
    assert_eq!(
        converter.set_field(&[7], 2, false).err().unwrap().to_string(),
        "Degree higher than 1 is not supported"
    );
}

fn terms(list: &[(u64, u8)]) -> Variables {
    Variables {
        variable_ids: list.iter().map(|t| t.0).collect(),
        values: Some(list.iter().map(|t| t.1).collect()),
    }
}

/// `x * y = z + 2`, with `z` public.
fn product_system() -> (CircuitHeader, ConstraintSystem) {
    (
        CircuitHeader {
            instance_variables: terms(&[(1, 10)]),
            free_variable_id: 4,
            field_maximum: Some(vec![100]),
        },
        ConstraintSystem {
            constraints: vec![BilinearConstraint {
                linear_combination_a: terms(&[(2, 1)]),
                linear_combination_b: terms(&[(3, 1)]),
                linear_combination_c: terms(&[(1, 1), (0, 2)]),
            }],
        },
    )
}

#[test]
fn circuits_hold_where_the_constraint_systems_do() {
    let (header, system) = product_system();
    for (x, y, holds) in [(3, 4, true), (4, 3, true), (3, 5, false), (12, 1, true), (50, 97, false)] {
        let given = Assignment { assigned_variables: terms(&[(2, x), (3, y)]) };
        let mut first = FromR1CSConverter::new(MemorySink::default(), &header);
        first.ingest_witness(&given).unwrap();
        first.ingest_constraints(&system).unwrap();
        let mut second = FromR1CSConverter::new(MemorySink::default(), &header);
        second.ingest_constraints(&system).unwrap();
        second.ingest_witness(&given).unwrap();
        let messages = first.finish().into_messages();
        assert_eq!(messages, second.finish().into_messages());
        assert_eq!(violations(&messages).is_empty(), holds);
    }
}

#[test]
fn unknown_variables_are_refused() {
    let (header, _) = product_system();
    let mut converter = FromR1CSConverter::new(MemorySink::default(), &header);
    let given = Assignment { assigned_variables: terms(&[(9, 1)]) };
    assert_eq!(
        converter.ingest_witness(&given).err().unwrap().to_string(),
        "The ZKI witness id 9 does not exist."
    );
    let system = ConstraintSystem {
        constraints: vec![BilinearConstraint {
            linear_combination_a: terms(&[(9, 1)]),
            linear_combination_b: terms(&[]),
            linear_combination_c: terms(&[]),
        }],
    };
    assert_eq!(
        converter.ingest_constraints(&system).err().unwrap().to_string(),
        "The WireId 9 has not been defined yet."
    );
    let nameless = CircuitHeader { field_maximum: None, ..product_system().0 };
    assert_eq!(
        zki_header_to_header(&nameless).err().unwrap().to_string(),
        "field_maximum must be provided"
    );
}

#[test]
fn headers_are_checked() {
    assert!(check_header(&product_system().0).is_ok());
    let nameless = CircuitHeader { field_maximum: None, ..product_system().0 };
    assert_eq!(
        check_header(&nameless).err().unwrap().to_string(),
        "field_maximum must be provided"
    );
    let unit = |value: u8| CircuitHeader {
        instance_variables: terms(&[(1, 10), (0, value)]),
        ..product_system().0
    };
    assert!(check_header(&unit(1)).is_ok());
    assert_eq!(
        check_header(&unit(2)).err().unwrap().to_string(),
        "value for instance id:0 should be a constant 1"
    );
}

// ---- Building ----

#[test]
fn gates_get_their_outputs() {
    assert_eq!(BuildGate::Add(1, 2).with_output(3), Gate::Add(3, 1, 2));
    assert_eq!(BuildGate::Constant(vec![4]).with_output(5), Gate::Constant(5, vec![4]));
    assert_eq!(BuildGate::AssertZero(6).with_output(NO_OUTPUT), Gate::AssertZero(6));
    assert_eq!(BuildGate::Free(1, Some(2)).with_output(NO_OUTPUT), Gate::Free(1, Some(2)));
    assert!(BuildGate::Witness(None).has_output());
    assert!(!BuildGate::AssertZero(0).has_output());
    assert_eq!(
        BuildComplexGate::Call("f".to_string(), wires(&[1])).with_output(wires(&[0])),
        Gate::Call("f".to_string(), wires(&[0]), wires(&[1]))
    );
    let params = SwitchParams { output_count: 1, instance_count: 0, witness_count: 0 };
    assert_eq!(
        BuildComplexGate::Switch(4, vec![vec![1]], vec![], params).with_output(wires(&[0])),
        Gate::Switch(4, wires(&[0]), vec![vec![1]], vec![])
    );
}

#[test]
fn builders_number_wires_and_cut_messages() {
    let mut builder = GateBuilder::new(MemorySink::default(), header(&[101]), ARITH, SIMPLE);
    for n in 0..100_001u64 {
        assert_eq!(builder.create_gate(BuildGate::Instance(Some(vec![(n % 7) as u8]))), n);
    }
    assert_eq!(builder.create_gate(BuildGate::AssertZero(0)), NO_OUTPUT);
    assert_eq!(builder.wires_used(), 100_001);
    let sink = builder.finish();
    let sizes: Vec<usize> = sink.instances.iter().map(|i| i.common_inputs.len()).collect();
    assert_eq!(sizes, vec![100_000, 1]);
    let sizes: Vec<usize> = sink.relations.iter().map(|r| r.gates.len()).collect();
    assert_eq!(sizes, vec![100_000, 2]);
    assert_eq!(sink.witnesses.len(), 0);
    assert_eq!(violations(&sink.into_messages()), Vec::<String>::new());
}

#[test]
fn relations_in_a_row_are_as_one() {
    let relation = |gates: Vec<Gate>| Relation {
        header: header(&[101]),
        gate_mask: ARITH,
        feat_mask: SIMPLE,
        functions: vec![],
        gates,
    };
    let first = vec![Gate::Instance(0), Gate::Witness(1), Gate::Mul(2, 0, 1)];
    let second = vec![Gate::AddConstant(3, 2, vec![3]), Gate::Witness(4), Gate::Add(5, 3, 4)];
    let mut both = first.clone();
    both.extend(second.clone());
    let run = |relations: Vec<Relation>| {
        let mut messages = vec![
            Message::Instance(Instance { header: header(&[101]), common_inputs: vec![vec![7]] }),
            Message::Witness(Witness {
                header: header(&[101]),
                short_witness: vec![vec![11], vec![30]],
            }),
        ];
        messages.extend(relations.into_iter().map(Message::Relation));
        let evaluator = Evaluator::from_messages(&messages, &mut PlaintextBackend::default());
        let values: Vec<Option<Value>> =
            (0..7).map(|id| evaluator.get(id).ok().map(|v| v.to_bytes_le())).collect();
        assert_eq!(evaluator.get_violations(), Vec::<String>::new());
        values
    };
    let one = run(vec![relation(both)]);
    assert_eq!(one[5], Some(vec![9]));
    assert_eq!(one[6], None);
    assert_eq!(run(vec![relation(first), relation(second)]), one);
}

#[test]
fn a_switch_without_the_case_gives_zero() {
    let branch = || CaseInvoke::AbstractAnonCall(
        wires(&[1]),
        0,
        0,
        vec![Gate::AddConstant(0, 1, vec![5])],
    );
    let run = |condition: u8| {
        let messages = statement_with(
            &[101],
            ARITH,
            vec![],
            vec![
                Gate::Constant(0, vec![condition]),
                Gate::Constant(1, vec![20]),
                Gate::Switch(0, wires(&[2]), vec![vec![3], vec![4]], vec![branch(), branch()]),
            ],
            &[],
            &[],
        );
        let evaluator = Evaluator::from_messages(&messages, &mut PlaintextBackend::default());
        let output = evaluator.get(2).unwrap().to_bytes_le();
        assert_eq!(evaluator.get_violations(), Vec::<String>::new());
        output
    };
    assert_eq!(run(3), vec![25]);
    assert_eq!(run(4), vec![25]);
    assert_eq!(run(5), vec![0]);
}

fn one_term(id: u64) -> Variables {
    Variables { variable_ids: vec![id], values: Some(vec![1]) }
}

fn small_header() -> CircuitHeader {
    CircuitHeader {
        instance_variables: Variables { variable_ids: vec![1], values: Some(vec![6]) },
        free_variable_id: 4,
        field_maximum: Some(vec![100]),
    }
}

fn product(a: u64, b: u64, c: u64) -> BilinearConstraint {
    BilinearConstraint {
        linear_combination_a: one_term(a),
        linear_combination_b: one_term(b),
        linear_combination_c: one_term(c),
    }
}

#[test]
fn constraints_are_refused_for_undeclared_variables() {
    let mut converter = FromR1CSConverter::new(MemorySink::default(), &small_header());
    let refused = ConstraintSystem { constraints: vec![product(2, 3, 1), product(0, 4, 9)] };
    assert_eq!(
        converter.ingest_constraints(&refused).unwrap_err().to_string(),
        "The WireId 4 has not been defined yet."
    );
    let mut converter = FromR1CSConverter::new(MemorySink::default(), &small_header());
    let accepted = ConstraintSystem { constraints: vec![product(2, 3, 1), product(0, 1, 1)] };
    converter.ingest_constraints(&accepted).unwrap();
    let sink = converter.finish();
    let assertions = sink.relations[0]
        .gates
        .iter()
        .filter(|gate| matches!(gate, Gate::AssertZero(_)))
        .count();
    assert_eq!(assertions, 2);
}

#[test]
fn whole_statements_are_converted_in_order() {
    let witness = Assignment {
        assigned_variables: Variables { variable_ids: vec![2, 3], values: Some(vec![2, 3]) },
    };
    let messages = vec![
        R1csMessage::Other,
        R1csMessage::Constraints(ConstraintSystem { constraints: vec![product(2, 3, 1)] }),
        R1csMessage::Header(small_header()),
        R1csMessage::Witness(witness),
    ];
    let sink = convert_messages(MemorySink::default(), &messages).unwrap();
    let evaluator =
        Evaluator::from_messages(&sink.into_messages(), &mut PlaintextBackend::default());
    assert_eq!(evaluator.get_violations(), Vec::<String>::new());
    assert_eq!(
        convert_messages(MemorySink::default(), &messages[..2].to_vec()).err().unwrap().to_string(),
        "Header not present in ZKIF workspace."
    );
    let mut unknown = small_header();
    unknown.field_maximum = None;
    assert_eq!(
        convert_messages(MemorySink::default(), &vec![R1csMessage::Header(unknown)])
            .err()
            .unwrap()
            .to_string(),
        "field_maximum must be provided"
    );
}

#[test]
fn an_empty_last_batch_has_no_values() {
    let mut converter = ToR1CSConverter::new(true, false);
    converter.set_field(&[101], 1, false).unwrap();
    for _ in 0..100_001 {
        converter.witness(Some(plain(1))).unwrap();
    }
    let statement = converter.finish();
    assert_eq!(statement.witnesses.len(), 2);
    assert_eq!(statement.witnesses[0].assigned_variables.variable_ids.len(), 100_001);
    assert_eq!(
        statement.witnesses[1].assigned_variables,
        Variables { variable_ids: vec![], values: None }
    );
    let mut converter = ToR1CSConverter::new(true, false);
    converter.set_field(&[101], 1, false).unwrap();
    assert_eq!(
        converter.finish().witnesses[0].assigned_variables,
        Variables { variable_ids: vec![], values: Some(vec![]) }
    );
}

#[test]
fn copies_are_the_same() {
    let messages = switched(3, 4, true);
    assert_eq!(messages.clone(), messages);
    let body = ForLoopBody::IterExprCall(
        "f".to_string(),
        vec![IterExprListElement::Single(IterExprWireNumber::Mul(
            Box::new(IterExprWireNumber::Iterator("i".to_string())),
            Box::new(IterExprWireNumber::Const(2)),
        ))],
        vec![IterExprListElement::Range(
            IterExprWireNumber::Const(1),
            IterExprWireNumber::DivConst(Box::new(IterExprWireNumber::Const(9)), 3),
        )],
    );
    let gate = Gate::For("i".to_string(), 1, 2, wires(&[4, 5]), body);
    assert_eq!(gate.clone(), gate);
}

#[test]
fn flattened_statements_are_all_that_the_sink_gets() {
    for (condition, input) in [(3, 4), (5, 4), (5, 0), (4, 7)] {
        let messages = switched(condition, input, true);
        let sink = flatten_messages(&messages).unwrap();
        assert_eq!(sink.relations.len(), 1);
        assert!(sink.relations[0].functions.is_empty());
        assert_eq!(sink.relations[0].feat_mask, SIMPLE);
        assert_eq!(violations(&sink.into_messages()).is_empty(), violations(&messages).is_empty());
    }
    assert_eq!(
        flatten_messages(&vec![]).err().unwrap(),
        vec!["Did not receive any gate to verify.".to_string()]
    );
}

#[test]
fn flatteners_keep_what_their_sink_had_got() {
    let mut flattener = IRFlattener::new(MemorySink::default());
    flattener.set_field(&[101], 1, false).unwrap();
    flattener.constant(plain(3)).unwrap();
    let sink = flattener.finish();
    assert_eq!(sink.relations.len(), 1);
    let first = sink.relations[0].clone();

    let mut flattener = IRFlattener::new(sink);
    flattener.set_field(&[7], 1, true).unwrap();
    let wire = flattener.constant(plain(1)).unwrap();
    // A second field changes nothing.
    flattener.set_field(&[11], 2, false).unwrap();
    assert_eq!(flattener.minus_one().unwrap().to_bytes_le(), vec![6]);
    flattener.assert_zero(&wire).unwrap();
    let sink = flattener.finish();
    assert_eq!(sink.relations.len(), 2);
    assert_eq!(sink.relations[0], first);
    assert_eq!(sink.relations[1].header, header(&[7]));
    assert_eq!(sink.relations[1].gate_mask, BOOL);
    assert_eq!(
        sink.relations[1].gates,
        vec![Gate::Constant(0, vec![1]), Gate::AssertZero(0)]
    );
}
