use zki_sieve::flat::reader::find_target;
use zki_sieve::structs::files::read_messages;
use zki_sieve::structs::functions::{translate_block, translate_gate, translate_gates, Block};
use zki_sieve::structs::gates::Gate;
use zki_sieve::structs::header::Header;
use zki_sieve::structs::instance::Instance;
use zki_sieve::structs::message::Message;
use zki_sieve::structs::witness::Witness;
use zki_sieve::tools::{report, tool_named, Tool};

fn header() -> Header {
    Header { field_characteristic: vec![101, 0, 1], ..Header::default() }
}

/// The bytes of a message with the object at an offset as its root.
fn finished(mut builder: flatbuffers::FlatBufferBuilder<'static>, root: u32) -> Vec<u8> {
    builder.finish_size_prefixed(
        flatbuffers::WIPOffset::<flatbuffers::Table<'static>>::new(root),
        None,
    );
    builder.finished_data().to_vec()
}

#[test]
fn instances_are_read_back() {
    for values in vec![vec![], vec![vec![]], vec![vec![1], vec![2, 3, 0], vec![], vec![255; 300]]] {
        let instance = Instance { header: header(), common_inputs: values };
        let mut buffer = vec![];
        instance.write_into(&mut buffer).unwrap();
        assert_eq!(Instance::try_from(&buffer).unwrap(), instance);
        // The length comes first.
        assert_eq!(
            u32::from_le_bytes([buffer[0], buffer[1], buffer[2], buffer[3]]) as usize,
            buffer.len() - 4
        );
    }
}

#[test]
fn messages_are_appended() {
    let first = Instance { header: header(), common_inputs: vec![vec![7]] };
    let second = Instance { header: Header::default(), common_inputs: vec![vec![8], vec![9]] };
    let mut buffer = vec![];
    first.write_into(&mut buffer).unwrap();
    let len = buffer.len();
    second.write_into(&mut buffer).unwrap();
    assert_eq!(Instance::try_from(&buffer[..len]).unwrap(), first);
    assert_eq!(Instance::try_from(&buffer[len..]).unwrap(), second);
}

#[test]
fn witnesses_are_read_back() {
    let witness = Witness {
        header: Header {
            version: "1.0.0 \u{e9}\u{1f600}".to_string(),
            field_characteristic: vec![],
            field_degree: 0,
        },
        short_witness: (0..1000u32).map(|i| i.to_le_bytes().to_vec()).collect(),
    };
    let mut buffer = vec![];
    witness.write_into(&mut buffer).unwrap();
    assert_eq!(Witness::try_from(&buffer).unwrap(), witness);
    assert_eq!(&buffer[8..12], b"siev");
}

#[test]
fn messages_of_another_kind_are_refused() {
    let mut buffer = vec![];
    Instance { header: header(), common_inputs: vec![] }.write_into(&mut buffer).unwrap();
    assert_eq!(
        Witness::try_from(&buffer).unwrap_err().to_string(),
        "Not a Witness message."
    );
    let mut buffer = vec![];
    Witness { header: header(), short_witness: vec![] }.write_into(&mut buffer).unwrap();
    assert_eq!(
        Instance::try_from(&buffer).unwrap_err().to_string(),
        "Not a Instance message."
    );
    assert_eq!(Instance::try_from(&[]).unwrap_err().to_string(), "Not a Instance message.");
    assert_eq!(
        Instance::try_from(&[9, 0, 0, 0, 255, 255, 255, 255]).unwrap_err().to_string(),
        "Not a Instance message."
    );
}

#[test]
fn cut_messages_are_refused() {
    let instance = Instance { header: header(), common_inputs: vec![vec![1, 2, 3, 4, 5]] };
    let mut buffer = vec![];
    instance.write_into(&mut buffer).unwrap();
    for len in 0..buffer.len() / 2 {
        assert!(Instance::try_from(&buffer[..len]).is_err());
    }
}

fn elementary_gates() -> Vec<Gate> {
    vec![
        Gate::Constant(1, vec![2, 3]),
        Gate::AssertZero(4),
        Gate::Copy(5, 6),
        Gate::Add(7, 8, 9),
        Gate::Mul(10, 11, 12),
        Gate::AddConstant(13, 14, vec![]),
        Gate::MulConstant(15, 16, vec![17; 40]),
        Gate::And(18, 19, u64::MAX),
        Gate::Xor(0, 0, 0),
        Gate::Not(21, 22),
    ]
}

#[test]
fn gates_are_read_back() {
    for gate in elementary_gates() {
        let mut builder = flatbuffers::FlatBufferBuilder::new();
        let root = gate.build(&mut builder).unwrap();
        let data = finished(builder, root);
        let table = find_target(&data, 4).unwrap();
        assert_eq!(Gate::try_from_table(&data, table).unwrap(), gate);
    }
}

#[test]
fn blocks_are_read_back() {
    let blocks = vec![
        Block(elementary_gates()),
        Block(vec![]),
        Block(vec![Gate::Not(1, 2), Gate::Not(3, 4)]),
    ];
    let mut builder = flatbuffers::FlatBufferBuilder::new();
    let root = Block::build_vector(&mut builder, &blocks).unwrap();
    let data = finished(builder, root);
    let vector = find_target(&data, 4).unwrap();
    assert_eq!(Block::try_from_vector(&data, vector).unwrap(), blocks);
}

#[test]
fn gates_that_run_others_have_no_binary_form() {
    let mut builder = flatbuffers::FlatBufferBuilder::new();
    assert_eq!(Gate::Instance(1).build(&mut builder), None);
    assert_eq!(Gate::Call("f".to_string(), vec![], vec![]).build(&mut builder), None);
    assert_eq!(Block(vec![Gate::Not(1, 2), Gate::Witness(3)]).build(&mut builder), None);
    assert_eq!(Block::build_vector(&mut builder, &vec![Block(vec![Gate::Free(1, None)])]), None);
}

#[test]
fn tables_that_are_no_gates_are_refused() {
    // A table without fields.
    let mut builder = flatbuffers::FlatBufferBuilder::new();
    let start = builder.start_table();
    let root = builder.end_table(start).value();
    let data = finished(builder, root);
    let table = find_target(&data, 4).unwrap();
    assert_eq!(Gate::try_from_table(&data, table).unwrap_err().to_string(), "No gate type");
    assert_eq!(
        Block::try_from_table(&data, table).unwrap_err().to_string(),
        "Missing subcircuit in block"
    );

    // A code without a table, then an unknown code.
    for (code, with_table, text) in
        vec![(4u8, false, "Missing field of a gate"), (4, true, "Missing field of a gate"), (99, true, "Unknown gate type")]
    {
        let mut builder = flatbuffers::FlatBufferBuilder::new();
        let start = builder.start_table();
        let inner = builder.end_table(start);
        let start = builder.start_table();
        builder.push_slot::<u8>(4, code, 0);
        if with_table {
            builder.push_slot_always(6, inner);
        }
        let root = builder.end_table(start).value();
        let data = finished(builder, root);
        let table = find_target(&data, 4).unwrap();
        assert_eq!(Gate::try_from_table(&data, table).unwrap_err().to_string(), text);
    }
}

#[test]
fn bodies_get_the_wires_of_a_call() {
    let wires = vec![100, 200, 300];
    let body = vec![
        Gate::Instance(0),
        Gate::Free(1, Some(2)),
        Gate::Free(2, None),
        Gate::Call("f".to_string(), vec![0], vec![2, 1]),
        Gate::Switch(
            1,
            vec![0],
            vec![2],
            3,
            4,
            vec![vec![5]],
            vec![Block(vec![Gate::MulConstant(0, 1, vec![6])])],
        ),
    ];
    assert_eq!(
        translate_gates(&body, &wires),
        vec![
            Gate::Instance(100),
            Gate::Free(200, Some(300)),
            Gate::Free(300, None),
            Gate::Call("f".to_string(), vec![100], vec![300, 200]),
            Gate::Switch(
                200,
                vec![100],
                vec![300],
                3,
                4,
                vec![vec![5]],
                vec![Block(vec![Gate::MulConstant(100, 200, vec![6])])],
            ),
        ]
    );
    assert_eq!(translate_gate(&Gate::Add(0, 1, 2), &wires), Gate::Add(100, 200, 300));
    assert_eq!(translate_block(&Block(elementary_gates_of_two()), &vec![1, 0]).0.len(), 2);
    // Wires given twice are the wires at the places that the first ones are.
    let first = vec![2, 0];
    let second = vec![7, 8, 9];
    let once = translate_gate(&Gate::Xor(0, 1, 1), &first);
    assert_eq!(translate_gate(&once, &second), translate_gate(&Gate::Xor(0, 1, 1), &vec![9, 7]));
}

fn elementary_gates_of_two() -> Vec<Gate> {
    vec![Gate::Copy(0, 1), Gate::Not(1, 0)]
}

#[test]
fn files_of_messages_are_read_back() {
    let instance = || Instance { header: header(), common_inputs: vec![vec![7], vec![8, 9]] };
    let witness = || Witness { header: header(), short_witness: vec![vec![3]] };
    let mut buffer = vec![];
    assert_eq!(read_messages(&buffer).unwrap(), vec![]);
    instance().write_into(&mut buffer).unwrap();
    witness().write_into(&mut buffer).unwrap();
    instance().write_into(&mut buffer).unwrap();
    assert_eq!(
        read_messages(&buffer).unwrap(),
        vec![
            Message::Instance(instance()),
            Message::Witness(witness()),
            Message::Instance(instance()),
        ]
    );
    let cut = &buffer[..buffer.len() - 1];
    assert_eq!(read_messages(cut).unwrap_err().to_string(), "A message is cut off.");
    assert_eq!(read_messages(&[1, 0, 0]).unwrap_err().to_string(), "A message is cut off.");
    assert!(read_messages(&[4, 0, 0, 0, 0, 0, 0, 0]).is_err());
}

#[test]
fn tools_have_names() {
    let named = |name: &str| tool_named(&name.to_string());
    assert_eq!(named("example").unwrap(), Tool::Example);
    assert_eq!(named("to-json").unwrap(), Tool::ToJson);
    assert_eq!(named("ir-to-zkif").unwrap(), Tool::IrToZkif);
    assert_eq!(named("help").unwrap(), Tool::Help);
    assert_eq!(
        named("simulate").unwrap_err().to_string(),
        "`simulate` was renamed to `evaluate`"
    );
    assert_eq!(named("bool-example").unwrap(), Tool::BoolExample);
    assert_eq!(named("validate").unwrap(), Tool::Validate);
    assert_eq!(named("metrics").unwrap(), Tool::Metrics);
    assert_eq!(named("valid-eval-metrics").unwrap(), Tool::ValidEvalMetrics);
    assert_eq!(named("list-validations").unwrap(), Tool::ListValidations);
    assert_eq!(
        named("stats").unwrap_err().to_string(),
        "`stats` was renamed to `metrics`"
    );
    assert_eq!(named("Help").unwrap_err().to_string(), "Unknown command Help");
}

#[test]
fn violations_are_reported() {
    let (text, verdict) = report(&vec![], "TRUE");
    assert_eq!(text, "The statement is TRUE!\n");
    assert!(verdict.is_ok());
    let (text, verdict) = report(&vec!["one".to_string(), "two".to_string()], "TRUE");
    assert_eq!(text, "The statement is NOT TRUE!\nViolations:\n- one\n- two\n");
    assert_eq!(verdict.unwrap_err().to_string(), "Found 2 violations.");
}

#[test]
fn messages_have_the_size_that_is_stated() {
    let mut buffer: Vec<u8> = Vec::new();
    Witness::default().write_into(&mut buffer).unwrap();
    assert_eq!(Witness::try_from(&buffer).unwrap(), Witness::default());
    // The header takes 8 + 4 for its version, then 4 + 18 for its field and 28; no values take
    // 2 + 4, and the rest 40 + 12.
    assert_eq!(buffer.len(), 120);
    let values = 1000;
    let witness = Witness { short_witness: vec![vec![7]; values], ..Witness::default() };
    let mut larger: Vec<u8> = Vec::new();
    witness.write_into(&mut larger).unwrap();
    // Each value takes 16 bytes, as all values share what their tables say, and a reference.
    // The first value fills the 2 bytes that the references were aligned with.
    assert_eq!(larger.len(), 116 + 20 * values);
    assert_eq!(Witness::try_from(&larger).unwrap(), witness.clone());
    let mut instance: Vec<u8> = Vec::new();
    Instance::default().write_into(&mut instance).unwrap();
    assert_eq!(instance.len(), 116);
    assert_eq!(Instance::try_from(&instance).unwrap(), Instance::default());
}
