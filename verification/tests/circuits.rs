use std::collections::{BTreeMap, HashSet};
use zki_sieve::consumers::evaluator::{exp, Evaluator, PlaintextBackend, ZKBackend};
use zki_sieve::consumers::flattening::IRFlattener;
use zki_sieve::consumers::r1cs_builder::R1csStatement;
use zki_sieve::consumers::to_r1cs::ToR1CSConverter;
use zki_sieve::error::Error;
use zki_sieve::number::BigUint;
use zki_sieve::producers::from_r1cs::{zki_header_to_header, FromR1CSConverter};
use zki_sieve::producers::sink::MemorySink;
use zki_sieve::structs::function::{CaseInvoke, ForLoopBody, Function};
use zki_sieve::structs::gate::Gate;
use zki_sieve::structs::header::{Header, IR_VERSION};
use zki_sieve::structs::instance::Instance;
use zki_sieve::structs::iterators::{IterExprListElement, IterExprWireNumber};
use zki_sieve::structs::message::Message;
use zki_sieve::structs::r1cs::{
    Assignment, BilinearConstraint, CircuitHeader, ConstraintSystem, Variables,
};
use zki_sieve::structs::relation::{Relation, ARITH, BOOL, FOR, FUNCTION, SIMPLE, SWITCH};
use zki_sieve::structs::wire::{WireId, WireList, WireListElement};
use zki_sieve::structs::witness::Witness;
use zkinterface::producers::examples::example_circuit_header as zki_example_header;
use zkinterface::producers::examples::example_constraints as zki_example_constraints;
use zkinterface::producers::examples::example_witness_inputs as zki_example_witness_inputs;

// ---- An example statement: x^2 + y^2 = zz, behind a switch, with loops. ----

fn wires(ids: &[WireId]) -> WireList {
    ids.iter().map(|id| WireListElement::Wire(*id)).collect()
}

fn example_header() -> Header {
    Header { field_characteristic: vec![101, 0, 0, 0], ..Header::default() }
}

fn example_instance() -> Instance {
    Instance { header: example_header(), common_inputs: vec![vec![25]] }
}

fn example_witness() -> Witness {
    Witness { header: example_header(), short_witness: vec![vec![3], vec![4]] }
}

fn example_witness_incorrect() -> Witness {
    Witness { header: example_header(), short_witness: vec![vec![3], vec![5]] }
}

fn iterator_plus(n: u64) -> IterExprListElement {
    IterExprListElement::Single(IterExprWireNumber::Add(
        Box::new(IterExprWireNumber::Iterator("i".to_string())),
        Box::new(IterExprWireNumber::Const(n)),
    ))
}

fn iterator_minus(n: u64) -> IterExprListElement {
    IterExprListElement::Single(IterExprWireNumber::Sub(
        Box::new(IterExprWireNumber::Iterator("i".to_string())),
        Box::new(IterExprWireNumber::Const(n)),
    ))
}

fn mul_call(output: WireId, left: WireId, right: WireId) -> Gate {
    Gate::Call("com.example::mul".to_string(), wires(&[output]), wires(&[left, right]))
}

fn example_gates() -> Vec<Gate> {
    vec![
        Gate::Witness(1),
        Gate::Switch(
            1,
            vec![
                WireListElement::Wire(0),
                WireListElement::Wire(2),
                WireListElement::WireRange(4, 6),
            ],
            vec![vec![3], vec![5]],
            vec![
                CaseInvoke::AbstractAnonCall(
                    wires(&[1]),
                    1,
                    1,
                    vec![
                        Gate::Instance(0),
                        Gate::Witness(1),
                        mul_call(2, 5, 5),
                        mul_call(3, 1, 1),
                        Gate::Add(4, 2, 3),
                    ],
                ),
                CaseInvoke::AbstractAnonCall(
                    wires(&[1]),
                    1,
                    1,
                    vec![
                        Gate::Instance(0),
                        mul_call(1, 5, 0),
                        Gate::Witness(2),
                        Gate::Mul(3, 1, 2),
                        Gate::Add(4, 2, 3),
                        // Not zero, but in a branch that is not taken.
                        Gate::AssertZero(0),
                    ],
                ),
            ],
        ),
        Gate::Constant(3, vec![100]),
        mul_call(7, 3, 0),
        Gate::AddConstant(8, 7, vec![0]),
        Gate::Add(9, 6, 8),
        Gate::Free(0, Some(7)),
        Gate::AssertZero(9),
        Gate::Constant(31, vec![1]),
        Gate::For(
            "i".to_string(),
            0,
            20,
            vec![WireListElement::WireRange(32, 52)],
            ForLoopBody::IterExprAnonCall(
                vec![iterator_plus(32)],
                vec![iterator_plus(31)],
                0,
                0,
                vec![Gate::AddConstant(0, 1, vec![1])],
            ),
        ),
        Gate::For(
            "i".to_string(),
            35,
            50,
            vec![WireListElement::WireRange(53, 68)],
            ForLoopBody::IterExprCall(
                "com.example::mul".to_string(),
                vec![iterator_plus(18)],
                vec![iterator_plus(0), iterator_minus(1)],
            ),
        ),
    ]
}

fn example_relation() -> Relation {
    Relation {
        header: example_header(),
        gate_mask: ARITH,
        feat_mask: FUNCTION | FOR | SWITCH,
        functions: vec![Function::new(
            "com.example::mul".to_string(),
            1,
            2,
            0,
            0,
            vec![Gate::Mul(0, 1, 2)],
        )],
        gates: example_gates(),
    }
}

fn example_messages() -> Vec<Message> {
    vec![
        Message::Instance(example_instance()),
        Message::Witness(example_witness()),
        Message::Relation(example_relation()),
    ]
}

fn number(n: u128) -> BigUint {
    BigUint::from_bytes_le(&n.to_le_bytes())
}

fn same(a: &BigUint, b: &BigUint) -> bool {
    a.to_bytes_le() == b.to_bytes_le()
}

fn small(n: &BigUint) -> u64 {
    n.to_bytes_le().iter().rev().fold(0, |acc, b| acc * 256 + *b as u64)
}

// ---- Evaluation ----

#[test]
fn test_exponentiation() {
    let mut backend = PlaintextBackend::default();

    let moduli = vec![number(16249742125730185677094195492597105093u128), number(101)];
    let bases = vec![number(2), number(42)];
    let exponents = vec![number(2206000150907221872269901214599500635u128), number(100)];
    let expecteds = vec![number(5834907326474057072663503101785122138u128), BigUint::one()];

    for (modulus, base, exponent, expected) in
        itertools::multizip((moduli.iter(), bases.iter(), exponents.iter(), expecteds.iter()))
    {
        backend.set_field(&modulus.to_bytes_le(), 1, false).unwrap();
        let result = exp(&mut backend, base, exponent, modulus, false).unwrap();
        assert!(same(&result, expected));
    }
}

#[test]
fn test_evaluator() {
    let relation = example_relation();
    let instance = example_instance();
    let witness = example_witness();

    let mut zkbackend = PlaintextBackend::default();
    let mut simulator = Evaluator::default();
    simulator.ingest_instance(&instance).unwrap();
    simulator.ingest_witness(&witness).unwrap();
    simulator.ingest_relation(&relation, &mut zkbackend).unwrap();

    assert_eq!(simulator.get_violations().len(), 0);
}

struct VerifierInterpreter {}

impl ZKBackend for VerifierInterpreter {
    type Wire = i64;
    type FieldElement = BigUint;
    fn clone_is_same(_x: BigUint, _y: BigUint) {}
    fn from_bytes_le(_val: &[u8]) -> Result<Self::FieldElement, Error> {
        Ok(BigUint::zero())
    }
    fn set_field(&mut self, _modulus: &[u8], _degree: u32, _is_boolean: bool) -> Result<(), Error> {
        Ok(())
    }
    fn one(&self) -> Result<Self::FieldElement, Error> {
        Ok(BigUint::one())
    }
    fn zero(&self) -> Result<Self::FieldElement, Error> {
        Ok(BigUint::zero())
    }
    fn minus_one(&self) -> Result<Self::FieldElement, Error> {
        Ok(BigUint::one())
    }
    fn copy(&mut self, wire: &Self::Wire) -> Result<Self::Wire, Error> {
        Ok(*wire)
    }
    fn constant(&mut self, _val: Self::FieldElement) -> Result<Self::Wire, Error> {
        Ok(0)
    }
    fn assert_zero(&mut self, _wire: &Self::Wire) -> Result<(), Error> {
        Ok(())
    }
    fn add(&mut self, _a: &Self::Wire, _b: &Self::Wire) -> Result<Self::Wire, Error> {
        Ok(0)
    }
    fn multiply(&mut self, _a: &Self::Wire, _b: &Self::Wire) -> Result<Self::Wire, Error> {
        Ok(0)
    }
    fn add_constant(
        &mut self,
        _a: &Self::Wire,
        _b: Self::FieldElement,
    ) -> Result<Self::Wire, Error> {
        Ok(0)
    }
    fn mul_constant(
        &mut self,
        _a: &Self::Wire,
        _b: Self::FieldElement,
    ) -> Result<Self::Wire, Error> {
        Ok(0)
    }
    fn and(&mut self, _a: &Self::Wire, _b: &Self::Wire) -> Result<Self::Wire, Error> {
        Ok(0)
    }
    fn xor(&mut self, _a: &Self::Wire, _b: &Self::Wire) -> Result<Self::Wire, Error> {
        Ok(0)
    }
    fn not(&mut self, _a: &Self::Wire) -> Result<Self::Wire, Error> {
        Ok(0)
    }
    fn instance(&mut self, _val: Self::FieldElement) -> Result<Self::Wire, Error> {
        Ok(0)
    }
    fn witness(&mut self, _val: Option<Self::FieldElement>) -> Result<Self::Wire, Error> {
        Ok(0)
    }
}

#[test]
fn test_evaluator_as_verifier() {
    let relation = example_relation();
    let instance = example_instance();

    let mut zkbackend = VerifierInterpreter {};
    let mut simulator = Evaluator::default();
    simulator.ingest_instance(&instance).unwrap();
    simulator.ingest_relation(&relation, &mut zkbackend).unwrap();

    assert_eq!(simulator.get_violations().len(), 0);
}

#[test]
fn test_evaluator_wrong_result() {
    let relation = example_relation();
    let instance = example_instance();
    let witness = example_witness_incorrect();

    let mut zkbackend = PlaintextBackend::default();
    let mut simulator = Evaluator::default();
    let _ = simulator.ingest_instance(&instance);
    let _ = simulator.ingest_witness(&witness);
    let should_be_err = simulator.ingest_relation(&relation, &mut zkbackend);

    assert!(should_be_err.is_err());
    assert_eq!(
        "Wire_9 (may be weighted) should be 0, while it is not",
        should_be_err.err().unwrap().to_string()
    );
}

// ---- Flattening ----

fn flatten_example() -> Vec<Message> {
    let mut flattener = IRFlattener::new(MemorySink::default());
    let mut evaluator = Evaluator::default();
    evaluator.ingest_instance(&example_instance()).unwrap();
    evaluator.ingest_witness(&example_witness()).unwrap();
    evaluator.ingest_relation(&example_relation(), &mut flattener).unwrap();
    flattener.finish().into_messages()
}

/// The wire that an elementary gate writes, and those that it reads.
fn ends(gate: &Gate) -> Option<(Option<WireId>, Vec<WireId>)> {
    Some(match gate {
        Gate::Constant(o, _) | Gate::Instance(o) | Gate::Witness(o) => (Some(*o), vec![]),
        Gate::AssertZero(a) => (None, vec![*a]),
        Gate::Copy(o, a)
        | Gate::AddConstant(o, a, _)
        | Gate::MulConstant(o, a, _)
        | Gate::Not(o, a) => (Some(*o), vec![*a]),
        Gate::Add(o, a, b) | Gate::Mul(o, a, b) | Gate::And(o, a, b) | Gate::Xor(o, a, b) => {
            (Some(*o), vec![*a, *b])
        }
        _ => return None,
    })
}

#[test]
fn test_validate_flattening() {
    let mut violations: Vec<String> = vec![];
    let mut live: HashSet<WireId> = HashSet::new();
    let (mut instances, mut witnesses) = (0, 0);
    for message in flatten_example() {
        match message {
            Message::Instance(i) => instances += i.common_inputs.len(),
            Message::Witness(w) => witnesses += w.short_witness.len(),
            Message::Relation(r) => {
                if r.feat_mask != SIMPLE || r.gate_mask != ARITH || !r.functions.is_empty() {
                    violations.push("not a simple circuit".to_string());
                }
                for gate in &r.gates {
                    let (out, ins) = match ends(gate) {
                        Some(e) => e,
                        None => {
                            violations.push(format!("not an elementary gate: {:?}", gate));
                            continue;
                        }
                    };
                    for id in ins {
                        if !live.contains(&id) {
                            violations.push(format!("wire {} is read before it is written", id));
                        }
                    }
                    if let Some(id) = out {
                        if !live.insert(id) {
                            violations.push(format!("wire {} is written twice", id));
                        }
                    }
                    match gate {
                        Gate::Instance(_) if instances == 0 => violations.push("instance".into()),
                        Gate::Instance(_) => instances -= 1,
                        Gate::Witness(_) if witnesses == 0 => violations.push("witness".into()),
                        Gate::Witness(_) => witnesses -= 1,
                        _ => {}
                    }
                }
            }
        }
    }
    assert_eq!(violations, Vec::<String>::new());
    assert_eq!((instances, witnesses), (0, 0));
}

#[test]
fn test_evaluate_flattening() {
    let messages = flatten_example();
    let mut interpreter = PlaintextBackend::default();
    let new_simulator = Evaluator::from_messages(&messages, &mut interpreter);
    assert_eq!(new_simulator.get_violations().len(), 0);
}

// ---- Constraint systems ----

fn from_zki_variables(v: &zkinterface::Variables) -> Variables {
    Variables { variable_ids: v.variable_ids.clone(), values: v.values.clone() }
}

fn from_zki_header(h: &zkinterface::CircuitHeader) -> CircuitHeader {
    CircuitHeader {
        instance_variables: from_zki_variables(&h.instance_variables),
        free_variable_id: h.free_variable_id,
        field_maximum: h.field_maximum.clone(),
    }
}

fn from_zki_witness(w: &zkinterface::Witness) -> Assignment {
    Assignment { assigned_variables: from_zki_variables(&w.assigned_variables) }
}

fn from_zki_constraints(cs: &zkinterface::ConstraintSystem) -> ConstraintSystem {
    ConstraintSystem {
        constraints: cs
            .constraints
            .iter()
            .map(|c| BilinearConstraint {
                linear_combination_a: from_zki_variables(&c.linear_combination_a),
                linear_combination_b: from_zki_variables(&c.linear_combination_b),
                linear_combination_c: from_zki_variables(&c.linear_combination_c),
            })
            .collect(),
    }
}

fn to_zki_variables(v: &Variables) -> zkinterface::Variables {
    zkinterface::Variables { variable_ids: v.variable_ids.clone(), values: v.values.clone() }
}

fn to_zki_messages(statement: &R1csStatement) -> Vec<zkinterface::Message> {
    let mut messages = vec![zkinterface::Message::Header(zkinterface::CircuitHeader {
        instance_variables: to_zki_variables(&statement.header.instance_variables),
        free_variable_id: statement.header.free_variable_id,
        field_maximum: statement.header.field_maximum.clone(),
        configuration: None,
    })];
    for w in &statement.witnesses {
        messages.push(zkinterface::Message::Witness(zkinterface::Witness {
            assigned_variables: to_zki_variables(&w.assigned_variables),
        }));
    }
    for cs in &statement.constraint_systems {
        messages.push(zkinterface::Message::ConstraintSystem(zkinterface::ConstraintSystem {
            constraints: cs
                .constraints
                .iter()
                .map(|c| zkinterface::BilinearConstraint {
                    linear_combination_a: to_zki_variables(&c.linear_combination_a),
                    linear_combination_b: to_zki_variables(&c.linear_combination_b),
                    linear_combination_c: to_zki_variables(&c.linear_combination_c),
                })
                .collect(),
        }));
    }
    messages
}

/// The example constraint system of zkInterface as a circuit.
fn example_from_r1cs() -> FromR1CSConverter<MemorySink> {
    let zki_header = from_zki_header(&zki_example_header());
    let zki_witness = from_zki_witness(&zki_example_witness_inputs(3, 4));
    let zki_r1cs = from_zki_constraints(&zki_example_constraints());

    let mut converter = FromR1CSConverter::new(MemorySink::default(), &zki_header);
    converter.ingest_witness(&zki_witness).unwrap();
    converter.ingest_constraints(&zki_r1cs).unwrap();
    converter
}

fn to_r1cs(messages: &Vec<Message>, use_correction: bool) -> R1csStatement {
    let mut to_r1cs = ToR1CSConverter::new(true, use_correction);
    let evaluator = Evaluator::from_messages(messages, &mut to_r1cs);
    let statement = to_r1cs.finish();
    let r1cs_violations = evaluator.get_violations();
    assert_eq!(r1cs_violations.len(), 0);
    statement
}

#[test]
fn test_tor1cs_check_witnesses_instances() {
    let messages = example_from_r1cs().finish().into_messages();
    let statement = to_r1cs(&messages, false);

    let zki_instances: HashSet<Vec<u8>> = to_zki_variables(&statement.header.instance_variables)
        .get_variables()
        .iter()
        .map(|v| BigUint::from_bytes_le(v.value).to_bytes_le())
        .collect();
    let zki_witnesses: HashSet<Vec<u8>> = statement
        .witnesses
        .iter()
        .flat_map(|w| {
            to_zki_variables(&w.assigned_variables)
                .get_variables()
                .iter()
                .map(|v| BigUint::from_bytes_le(v.value).to_bytes_le())
                .collect::<Vec<_>>()
        })
        .collect();
    let mut ir_instances: HashSet<Vec<u8>> = HashSet::new();
    let mut ir_witnesses: HashSet<Vec<u8>> = HashSet::new();
    for message in &messages {
        match message {
            Message::Instance(i) => ir_instances
                .extend(i.common_inputs.iter().map(|v| BigUint::from_bytes_le(v).to_bytes_le())),
            Message::Witness(w) => ir_witnesses
                .extend(w.short_witness.iter().map(|v| BigUint::from_bytes_le(v).to_bytes_le())),
            Message::Relation(_) => {}
        }
    }

    // zkif instances may contain more instance values that IR, since IR constants are translated
    // into ZKIF instances.
    assert_eq!(ir_instances.len(), 3);
    assert!(zki_instances.is_superset(&ir_instances));
    // zkif witness may (likely does) contain more witness values that IR could confirm
    assert_eq!(ir_witnesses.len(), 2);
    assert!(zki_witnesses.is_superset(&ir_witnesses));
}

/// What zkInterface finds wrong with the form of a statement, and with its values.
fn zki_violations(
    statement: &R1csStatement,
    field_maximum: Option<Vec<u8>>,
) -> (Vec<String>, Vec<String>) {
    let mut messages = to_zki_messages(statement);
    for message in messages.iter_mut() {
        if let zkinterface::Message::Header(ref mut header) = message {
            if field_maximum.is_some() {
                header.field_maximum = field_maximum.clone();
            }
        }
    }
    let mut validator = zkinterface::consumers::validator::Validator::new_as_prover();
    for message in &messages {
        validator.ingest_message(message);
    }
    let mut simulator = zkinterface::consumers::simulator::Simulator::default();
    for message in &messages {
        simulator.ingest_message(message);
    }
    (validator.get_violations(), simulator.get_violations())
}

fn bigger_field() -> Option<Vec<u8>> {
    Some(number(2305843009213693951).to_bytes_le())
}

#[test]
fn test_tor1cs_validate_2ways_conversion_same_field() {
    let messages = example_from_r1cs().finish().into_messages();
    let statement = to_r1cs(&messages, false);
    let (validator_violations, simulator_violations) = zki_violations(&statement, None);
    assert_eq!(validator_violations.len(), 1);
    assert_eq!(validator_violations[0], "variable_1 was defined but not used.");
    assert_eq!(simulator_violations.len(), 0);
}

#[test]
fn test_tor1cs_validate_converted_circuit_same_field() {
    let statement = to_r1cs(&example_messages(), false);
    let (violations, simulator_violations) = zki_violations(&statement, None);
    if violations.len() > 0 {
        panic!("Violations:\n- {}\n", violations.join("\n- "));
    }
    assert_eq!(simulator_violations.len(), 0);
}

#[test]
fn test_tor1cs_validate_2ways_conversion_bigger_field() {
    let messages = example_from_r1cs().finish().into_messages();
    let statement = to_r1cs(&messages, true);
    let (validator_violations, simulator_violations) = zki_violations(&statement, bigger_field());
    println!("{:?}", validator_violations);
    assert_eq!(validator_violations.len(), 1);
    assert_eq!(validator_violations[0], "variable_1 was defined but not used.");
    assert_eq!(simulator_violations.len(), 0);
}

#[test]
fn test_tor1cs_validate_converted_circuit_bigger_field() {
    let statement = to_r1cs(&example_messages(), true);
    let (violations, simulator_violations) = zki_violations(&statement, bigger_field());
    if violations.len() > 0 {
        panic!("Violations:\n- {}\n", violations.join("\n- "));
    }
    assert_eq!(simulator_violations.len(), 0);
}

fn assert_header(header: &Header) {
    assert_eq!(header.version, IR_VERSION);
    assert_eq!(small(&BigUint::from_bytes_le(&header.field_characteristic)), 101);
    assert_eq!(header.field_degree, 1);
}

#[test]
fn test_r1cs_to_gates() {
    let zki_header = from_zki_header(&zki_example_header());
    assert_header(&zki_header_to_header(&zki_header).unwrap());

    let messages = example_from_r1cs().finish().into_messages();
    let mut interp = PlaintextBackend::default();
    let eval = Evaluator::from_messages(&messages, &mut interp);

    let get_val = |idx: WireId| small(eval.get(idx).unwrap());

    // check instance
    assert_eq!(get_val(0), 1);
    assert_eq!(get_val(1), 100);
    assert_eq!(get_val(2), 3);
    assert_eq!(get_val(3), 4);
    assert_eq!(get_val(4), 25);

    // check witness
    assert_eq!(get_val(5), 9);
    assert_eq!(get_val(6), 16);

    assert_eq!(eval.get_violations().len(), 0 as usize);
}

/// How many gates and messages of each kind there are.
fn stats(conv: FromR1CSConverter<MemorySink>) -> BTreeMap<&'static str, usize> {
    let mut counts: BTreeMap<&'static str, usize> = BTreeMap::new();
    for message in conv.finish().into_messages() {
        let kind = match message {
            Message::Instance(_) => "instance_messages",
            Message::Witness(_) => "witness_messages",
            Message::Relation(r) => {
                assert_eq!(r.header.field_characteristic, vec![101]);
                assert_eq!(r.header.field_degree, 1);
                assert_eq!(r.functions.len(), 0);
                for gate in &r.gates {
                    let kind = match gate {
                        Gate::Instance(_) => "instance_variables",
                        Gate::Witness(_) => "witness_variables",
                        Gate::Constant(..) => "constants_gates",
                        Gate::AssertZero(_) => "assert_zero_gates",
                        Gate::Add(..) => "add_gates",
                        Gate::Mul(..) => "mul_gates",
                        _ => "other_gates",
                    };
                    *counts.entry(kind).or_insert(0) += 1;
                }
                "relation_messages"
            }
        };
        *counts.entry(kind).or_insert(0) += 1;
    }
    counts
}

#[test]
fn test_r1cs_stats() {
    let stats = stats(example_from_r1cs());
    let expected_stats: BTreeMap<&'static str, usize> = vec![
        ("instance_variables", 3),
        ("witness_variables", 2),
        ("constants_gates", 12),
        ("assert_zero_gates", 3),
        ("add_gates", 4),
        ("mul_gates", 15),
        ("instance_messages", 1),
        ("witness_messages", 1),
        ("relation_messages", 1),
    ]
    .into_iter()
    .collect();
    assert_eq!(expected_stats, stats);
}

#[test]
fn boolean_circuits_use_boolean_gates() {
    let relation = Relation {
        header: Header { field_characteristic: vec![2], ..Header::default() },
        gate_mask: BOOL,
        feat_mask: SIMPLE,
        functions: vec![],
        gates: vec![
            Gate::Instance(0),
            Gate::Witness(1),
            Gate::Xor(2, 0, 1),
            Gate::And(3, 2, 0),
            Gate::Not(4, 3),
            Gate::AssertZero(4),
        ],
    };
    let messages = vec![
        Message::Instance(Instance {
            header: Header { field_characteristic: vec![2], ..Header::default() },
            common_inputs: vec![vec![1]],
        }),
        Message::Witness(Witness {
            header: Header { field_characteristic: vec![2], ..Header::default() },
            short_witness: vec![vec![0]],
        }),
        Message::Relation(relation),
    ];
    let eval = Evaluator::from_messages(&messages, &mut PlaintextBackend::default());
    assert_eq!(small(eval.get(2).unwrap()), 1);
    assert_eq!(small(eval.get(3).unwrap()), 1);
    assert_eq!(eval.get_violations(), Vec::<String>::new());
}
