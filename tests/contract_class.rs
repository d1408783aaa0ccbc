use contract_class::abi::{
    AbiEntry, AbiEntryType, ContractClassAbiEntryWithType, FunctionAbiEntry, TypedParameter,
};
use contract_class::codec::{decode_compressed, encode_compressed, parse_json};
use contract_class::contract_class::{
    CompiledSierraClass, ContractClass, DeprecatedContractClass, InternalContractClass,
    SierraContractClass,
};
use contract_class::entry_points::{
    group_sierra_entry_points, EntryPointType, SierraEntryPointSource, SierraEntryPointsSource,
};
use contract_class::error::DecodeError;
use contract_class::felt::{FeltError, FieldElement};
use contract_class::json::JsonValue;

fn json(text: &str) -> JsonValue {
    parse_json(text).unwrap()
}

fn param(name: &str, ty: &str) -> TypedParameter {
    TypedParameter { name: name.to_string(), param_type: ty.to_string() }
}

fn group<'a, E>(groups: &'a [(EntryPointType, Vec<E>)], t: EntryPointType) -> Option<&'a Vec<E>> {
    groups.iter().find(|(k, _)| *k == t).map(|(_, v)| v)
}

fn keys_of(v: &JsonValue) -> Vec<String> {
    match v {
        JsonValue::Object(fs) => fs.iter().map(|(k, _)| k.clone()).collect(),
        _ => vec![],
    }
}

const LEGACY_ABI: &str = r#"[
    {
        "inputs": [],
        "name": "getPublicKey",
        "outputs": [{"name": "publicKey", "type": "felt"}],
        "stateMutability": "view",
        "type": "function"
    },
    {
        "inputs": [{"name": "newPublicKey", "type": "felt"}],
        "name": "setPublicKey",
        "outputs": [],
        "type": "function"
    },
    {
        "inputs": [{"name": "publicKey", "type": "felt"}],
        "name": "constructor",
        "outputs": [],
        "type": "constructor"
    }
]"#;

#[test]
fn correct_random_numbers_generated() {
    assert_eq!(
        contract_class::rng::generate_u128_random_numbers(123, 2),
        vec![261662301160200998434711212977610535782, 285327960644938307249498422906269531911]
    )
}

#[test]
fn random_numbers_other_seed_have_requested_length() {
    let a = contract_class::rng::generate_u128_random_numbers(7, 5);
    let b = contract_class::rng::generate_u128_random_numbers(7, 5);
    assert_eq!(a.len(), 5);
    assert_eq!(a, b);
    assert_eq!(contract_class::rng::generate_u128_random_numbers(123, 21).len(), 21);
}

#[test]
fn deserialize_contract_class_abi_entry_with_type() {
    let json_str = r#"{
        "inputs": [],
        "name": "getPublicKey",
        "outputs": [{"name": "publicKey", "type": "felt"}],
        "stateMutability": "view",
        "type": "function"
    }"#;
    let obj = ContractClassAbiEntryWithType::from_json(&json(json_str)).unwrap();
    assert_eq!(obj.entry_type, AbiEntryType::Function);
    assert_eq!(
        obj.entry,
        AbiEntry::Function(FunctionAbiEntry {
            name: "getPublicKey".to_string(),
            inputs: vec![],
            outputs: vec![param("publicKey", "felt")],
            state_mutability: Some("view".to_string()),
        })
    );

    let json_str = r#"{
        "inputs": [{"name": "newPublicKey", "type": "felt"}],
        "name": "setPublicKey",
        "outputs": [],
        "type": "function"
    }"#;
    let obj = ContractClassAbiEntryWithType::from_json(&json(json_str)).unwrap();
    assert_eq!(obj.entry_type, AbiEntryType::Function);
    assert_eq!(
        obj.entry,
        AbiEntry::Function(FunctionAbiEntry {
            name: "setPublicKey".to_string(),
            inputs: vec![param("newPublicKey", "felt")],
            outputs: vec![],
            state_mutability: None,
        })
    );

    let json_str = r#"{
        "inputs": [{"name": "publicKey", "type": "felt"}],
        "name": "constructor",
        "outputs": [],
        "type": "constructor"
    }"#;
    let obj = ContractClassAbiEntryWithType::from_json(&json(json_str)).unwrap();
    assert_eq!(obj.entry_type, AbiEntryType::Constructor);
    assert_eq!(
        obj.entry,
        AbiEntry::Function(FunctionAbiEntry {
            name: "constructor".to_string(),
            inputs: vec![param("publicKey", "felt")],
            outputs: vec![],
            state_mutability: None,
        })
    );
}

fn legacy_text(program: &str) -> String {
    format!(
        r#"{{
            "abi": {},
            "program": {},
            "entry_points_by_type": {{
                "EXTERNAL": [
                    {{"selector": "0xAAE3B5E8", "offset": "0x1"}},
                    {{"selector": "0xAAE3B5E9", "offset": "0x2"}}
                ]
            }}
        }}"#,
        LEGACY_ABI, program
    )
}

#[test]
fn deserialize_deprecated_contract_class() {
    let obj = DeprecatedContractClass::from_json(&json(&legacy_text("\"\""))).unwrap();
    assert_eq!(obj.abi.len(), 3);
    assert_eq!(obj.entry_points_by_type.len(), 1);
    assert_eq!(group(&obj.entry_points_by_type, EntryPointType::External).unwrap().len(), 2);
}

#[test]
fn legacy_external_entry_points_keep_order() {
    let obj = DeprecatedContractClass::from_json(&json(&legacy_text("\"\""))).unwrap();
    assert_eq!(obj.entry_points_by_type[0].0, EntryPointType::External);
    let eps = &obj.entry_points_by_type[0].1;
    assert_eq!(eps[0].selector.encode(), "0xaae3b5e8");
    assert_eq!(eps[0].offset.encode(), "0x1");
    assert_eq!(eps[1].selector.encode(), "0xaae3b5e9");
    assert_eq!(eps[1].offset.encode(), "0x2");
}

#[test]
fn legacy_abi_entries_have_expected_types() {
    let obj = DeprecatedContractClass::from_json(&json(&legacy_text("\"\""))).unwrap();
    let types: Vec<AbiEntryType> = obj.abi.iter().map(|e| e.entry_type).collect();
    assert_eq!(types, vec![AbiEntryType::Function, AbiEntryType::Function, AbiEntryType::Constructor]);
    match &obj.abi[0].entry {
        AbiEntry::Function(f) => assert_eq!(f.state_mutability, Some("view".to_string())),
        _ => panic!("function expected"),
    }
    match &obj.abi[1].entry {
        AbiEntry::Function(f) => assert_eq!(f.state_mutability, None),
        _ => panic!("function expected"),
    }
}

#[test]
fn legacy_program_keys_are_sorted() {
    let obj = DeprecatedContractClass::from_json(&json(&legacy_text(
        r#"{"zeta": 1, "alpha": {"y": [3, {"b": 1, "a": 2}], "x": null}, "mid": "s"}"#,
    )))
    .unwrap();
    assert_eq!(keys_of(&obj.program), vec!["alpha", "mid", "zeta"]);
}

fn sierra_text() -> String {
    r#"{
        "sierra_program": ["0xAA", "0xBB"],
        "contract_class_version": "1.0",
        "entry_points_by_type": {
            "EXTERNAL": [
                {"selector": "0xAAE3B5E8", "function_idx": 1},
                {"selector": "0xAAE3B5E9", "function_idx": 2}
            ]
        },
        "abi": "H4sIAAAAAAAA/8tIzcnJVyjPL8pJUQQAlQYXAAAA"
    }"#
    .to_string()
}

#[test]
fn deserialize_sierra_contract_class() {
    let obj = SierraContractClass::from_json(&json(&sierra_text())).unwrap();
    assert_eq!(obj.sierra_program.len(), 2);
    assert_eq!(obj.contract_class_version, "1.0".to_string());
    assert_eq!(obj.entry_points_by_type.len(), 1);
    assert_eq!(group(&obj.entry_points_by_type, EntryPointType::External).unwrap().len(), 2);
    assert_eq!(obj.abi, Some("H4sIAAAAAAAA/8tIzcnJVyjPL8pJUQQAlQYXAAAA".to_string()));
    assert_eq!(
        group(&obj.entry_points_by_type, EntryPointType::External).unwrap()[0].selector,
        FieldElement::decode("0xAAE3B5E8").unwrap()
    );
    assert_eq!(group(&obj.entry_points_by_type, EntryPointType::External).unwrap()[1].function_idx, 2);
}

#[test]
fn sierra_empty_program_and_absent_abi() {
    let text = r#"{"sierra_program": [], "contract_class_version": "0.1.0", "entry_points_by_type": {}}"#;
    let obj = SierraContractClass::from_json(&json(text)).unwrap();
    assert!(obj.sierra_program.is_empty());
    assert_eq!(obj.abi, None);
    assert!(obj.entry_points_by_type.is_empty());
}

#[test]
fn schema_selection_is_fixed() {
    match ContractClass::from_json(&json(&legacy_text("{}"))) {
        Ok(ContractClass::Cairo0(_)) => {}
        other => panic!("legacy expected: {:?}", other),
    }
    match ContractClass::from_json(&json(&sierra_text())) {
        Ok(ContractClass::Sierra(_)) => {}
        other => panic!("new-IR expected: {:?}", other),
    }
    assert!(matches!(
        ContractClass::from_json(&json(r#"{"abi": []}"#)),
        Err(DecodeError::MissingRequiredField)
    ));
}

#[test]
fn felt_codec_round_trip_and_canonical_text() {
    let f = FieldElement::decode("0x000AAE3B5E8").unwrap();
    assert_eq!(f.encode(), "0xaae3b5e8");
    assert_eq!(FieldElement::decode(&f.encode()).unwrap(), f);
    assert_eq!(FieldElement::decode("0X0").unwrap().encode(), "0x0");
    assert_eq!(FieldElement::decode("0x00").unwrap(), FieldElement::decode("0x0").unwrap());
}

#[test]
fn felt_codec_rejects_malformed_text() {
    assert_eq!(FieldElement::decode("AAE3"), Err(FeltError::MalformedFieldElement));
    assert_eq!(FieldElement::decode("0x"), Err(FeltError::MalformedFieldElement));
    assert_eq!(FieldElement::decode("0xg1"), Err(FeltError::MalformedFieldElement));
    assert_eq!(FieldElement::decode(""), Err(FeltError::MalformedFieldElement));
}

#[test]
fn felt_codec_modulus_boundary() {
    let p = "0x800000000000011000000000000000000000000000000000000000000000001";
    let below = "0x800000000000011000000000000000000000000000000000000000000000000";
    assert_eq!(FieldElement::decode(p), Err(FeltError::MalformedFieldElement));
    assert_eq!(FieldElement::decode(below).unwrap().encode(), below);
    let wide = "0x1000000000000000000000000000000000000000000000000000000000000000";
    assert_eq!(FieldElement::decode(wide), Err(FeltError::MalformedFieldElement));
}

#[test]
fn canonicalize_twice_equals_once() {
    let v = json(r#"{"b": {"d": 1, "c": [{"f": 1, "e": 2}]}, "a": true}"#);
    let once = v.canonicalize();
    let twice = once.canonicalize();
    assert_eq!(format!("{:?}", once), format!("{:?}", twice));
    assert_eq!(keys_of(&once), vec!["a", "b"]);
}

#[test]
fn canonicalize_sorts_every_level_and_keeps_arrays() {
    let v = JsonValue::Object(vec![
        ("b".to_string(), JsonValue::Array(vec![
            JsonValue::Object(vec![
                ("y".to_string(), JsonValue::Null),
                ("x".to_string(), JsonValue::Bool(false)),
            ]),
            JsonValue::Number("2".to_string()),
        ])),
        ("a".to_string(), JsonValue::Str("s".to_string())),
    ]);
    let c = v.canonicalize();
    assert_eq!(keys_of(&c), vec!["a", "b"]);
    match &c {
        JsonValue::Object(fs) => match &fs[1].1 {
            JsonValue::Array(xs) => {
                assert_eq!(keys_of(&xs[0]), vec!["x", "y"]);
                assert!(matches!(&xs[1], JsonValue::Number(n) if n == "2"));
            }
            _ => panic!("array expected"),
        },
        _ => panic!("object expected"),
    }
}

fn source(sel: &str, idx: u64) -> SierraEntryPointSource {
    SierraEntryPointSource { selector: sel.to_string(), function_idx: idx }
}

#[test]
fn grouping_keeps_category_and_input_order() {
    let src = SierraEntryPointsSource {
        constructor: vec![],
        external: vec![source("0x2", 5), source("0x1", 3)],
        l1_handler: vec![source("0x3", 0)],
    };
    let g = group_sierra_entry_points(&src).unwrap();
    assert_eq!(g.len(), 2);
    assert_eq!(g[0].0, EntryPointType::External);
    assert_eq!(g[1].0, EntryPointType::L1Handler);
    assert_eq!(g[0].1[0].function_idx, 5);
    assert_eq!(g[0].1[1].function_idx, 3);
    assert_eq!(g[0].1[0].selector.encode(), "0x2");
}

#[test]
fn grouping_rejects_malformed_selector() {
    let src = SierraEntryPointsSource {
        constructor: vec![source("0x1", 0)],
        external: vec![source("zz", 1)],
        l1_handler: vec![],
    };
    assert!(matches!(group_sierra_entry_points(&src), Err(DecodeError::MalformedFieldElement)));
}

#[test]
fn compressed_abi_is_kept_but_does_not_decompress() {
    let r = decode_compressed("H4sIAAAAAAAA/8tIzcnJVyjPL8pJUQQAlQYXAAAA");
    assert!(r.is_err());
}

#[test]
fn compressed_codec_errors() {
    assert!(matches!(decode_compressed("!!not base64!!"), Err(DecodeError::MalformedBase64)));
    assert!(matches!(decode_compressed("aGVsbG8="), Err(DecodeError::DecompressionFailure)));
    assert!(matches!(parse_json("{"), Err(DecodeError::MalformedJson)));
}

#[test]
fn compressed_codec_round_trip() {
    let v = json(r#"{"b": [1, 2, {"z": "q", "a": null}], "a": "x"}"#);
    let text = encode_compressed(&v).unwrap();
    assert_ne!(text, "");
    let back = decode_compressed(&text).unwrap();
    assert_eq!(format!("{:?}", back), format!("{:?}", v.canonicalize()));
    let empty = decode_compressed("H4sIAAAAAAACA4uOBQApu0wNAgAAAA==").unwrap();
    assert!(matches!(empty, JsonValue::Array(xs) if xs.is_empty()));
}

#[test]
fn unknown_abi_entry_type_is_reported() {
    let v = json(r#"{"name": "x", "type": "interface"}"#);
    assert!(matches!(ContractClassAbiEntryWithType::from_json(&v), Err(DecodeError::UnknownAbiEntryType)));
    let v = json(r#"{"name": "x"}"#);
    assert!(matches!(ContractClassAbiEntryWithType::from_json(&v), Err(DecodeError::MissingRequiredField)));
}

#[test]
fn from_internal_converts_compiled_class() {
    let compiled = CompiledSierraClass {
        sierra_program: vec!["0x01".to_string(), "0xff".to_string()],
        contract_class_version: "0.1.0".to_string(),
        entry_points_by_type: SierraEntryPointsSource {
            constructor: vec![source("0xA", 1)],
            external: vec![],
            l1_handler: vec![],
        },
        abi: Some(json(r#"[{"type": "function", "name": "f"}]"#)),
    };
    let c = ContractClass::from_internal(&InternalContractClass::Cairo1(compiled)).unwrap();
    match c {
        ContractClass::Sierra(s) => {
            assert_eq!(s.sierra_program[0].encode(), "0x1");
            assert_eq!(s.entry_points_by_type[0].0, EntryPointType::Constructor);
            let abi = decode_compressed(s.abi.as_ref().unwrap()).unwrap();
            assert!(matches!(abi, JsonValue::Array(xs) if xs.len() == 1));
        }
        _ => panic!("new-IR expected"),
    }
    let legacy = InternalContractClass::Cairo0(json(&legacy_text("[]")));
    assert!(matches!(ContractClass::from_internal(&legacy), Ok(ContractClass::Cairo0(_))));
}

#[test]
fn function_index_must_be_an_unsigned_integer() {
    let text = r#"{"sierra_program": [], "contract_class_version": "1",
        "entry_points_by_type": {"EXTERNAL": [{"selector": "0x1", "function_idx": -1}]}}"#;
    assert!(matches!(SierraContractClass::from_json(&json(text)), Err(DecodeError::MissingRequiredField)));
    let text = r#"{"sierra_program": [], "contract_class_version": "1",
        "entry_points_by_type": {"EXTERNAL": [{"selector": "0x1", "function_idx": 18446744073709551615}]}}"#;
    let s = SierraContractClass::from_json(&json(text)).unwrap();
    assert_eq!(s.entry_points_by_type[0].1[0].function_idx, u64::MAX);
}

#[test]
fn abi_entry_written_back_as_flat_object() {
    let text = r#"{"inputs": [{"name": "a", "type": "felt"}], "name": "f", "outputs": [],
        "stateMutability": "view", "type": "l1_handler"}"#;
    let e = ContractClassAbiEntryWithType::from_json(&json(text)).unwrap();
    assert_eq!(e.entry_type, AbiEntryType::L1Handler);
    let out = e.to_json();
    assert_eq!(keys_of(&out), vec!["name", "inputs", "outputs", "stateMutability", "type"]);
    let again = ContractClassAbiEntryWithType::from_json(&out).unwrap();
    assert_eq!(again, e);
}

#[test]
fn event_and_struct_entries_decode() {
    let ev = json(r#"{"name": "Transfer", "keys": [], "data": [{"name": "to", "type": "felt"}], "type": "event"}"#);
    let e = ContractClassAbiEntryWithType::from_json(&ev).unwrap();
    assert_eq!(e.entry_type, AbiEntryType::Event);
    let st = json(r#"{"name": "Pair", "size": 2, "members": [{"name": "a", "type": "felt", "offset": 0}, {"name": "b", "type": "felt", "offset": 1}], "type": "struct"}"#);
    let s = ContractClassAbiEntryWithType::from_json(&st).unwrap();
    assert_eq!(s.entry_type, AbiEntryType::Struct);
    match &s.entry {
        AbiEntry::Struct(x) => {
            assert_eq!(x.size, "2");
            assert_eq!(x.members.len(), 2);
            assert_eq!(x.members[1].offset, "1");
        }
        _ => panic!("struct expected"),
    }
    assert_eq!(keys_of(&s.to_json()), vec!["name", "size", "members", "type"]);
}

#[test]
fn legacy_class_into_internal_json() {
    let obj = DeprecatedContractClass::from_json(&json(&legacy_text(r#"{"b": 1, "a": 2}"#))).unwrap();
    match obj.into_internal() {
        InternalContractClass::Cairo0(j) => {
            assert_eq!(keys_of(&j), vec!["program", "abi", "entry_points_by_type"]);
            let back = DeprecatedContractClass::from_json(&j).unwrap();
            assert_eq!(back.abi.len(), 3);
            assert_eq!(keys_of(&back.program), vec!["a", "b"]);
            let eps = group(&back.entry_points_by_type, EntryPointType::External).unwrap();
            assert_eq!(eps[1].selector.encode(), "0xaae3b5e9");
        }
        _ => panic!("legacy expected"),
    }
}

#[test]
fn contract_class_from_text() {
    assert!(matches!(ContractClass::from_json_text(&sierra_text()), Ok(ContractClass::Sierra(_))));
    assert!(matches!(ContractClass::from_json_text("not json"), Err(DecodeError::MalformedJson)));
}

#[test]
fn unknown_entry_point_type_is_refused() {
    let text = r#"{"sierra_program": [], "contract_class_version": "1",
        "entry_points_by_type": {"EXTERNAL": [], "VIEW": []}}"#;
    assert!(matches!(SierraContractClass::from_json(&json(text)), Err(DecodeError::MissingRequiredField)));
}

#[test]
fn random_numbers_shorter_call_is_prefix() {
    let long = contract_class::rng::generate_u128_random_numbers(9, 6);
    let short = contract_class::rng::generate_u128_random_numbers(9, 3);
    assert_eq!(&long[..3], &short[..]);
    assert_ne!(contract_class::rng::generate_u128_random_numbers(10, 3), short);
}

#[test]
fn encode_compressed_refuses_bad_number_text() {
    let v = JsonValue::Array(vec![JsonValue::Number("not a number".to_string())]);
    assert_eq!(encode_compressed(&v), None);
}

#[test]
fn from_compiled_reports_unwritable_abi() {
    let compiled = CompiledSierraClass {
        sierra_program: vec![],
        contract_class_version: "1".to_string(),
        entry_points_by_type: SierraEntryPointsSource { constructor: vec![], external: vec![], l1_handler: vec![] },
        abi: Some(JsonValue::Number("x1".to_string())),
    };
    assert!(matches!(SierraContractClass::from_compiled(&compiled), Err(DecodeError::AbiSerializationError)));
}

#[test]
fn sierra_class_written_back_to_wire_json() {
    let obj = SierraContractClass::from_json(&json(&sierra_text())).unwrap();
    let out = obj.to_json();
    assert_eq!(keys_of(&out), vec!["sierra_program", "contract_class_version", "entry_points_by_type", "abi"]);
    let back = SierraContractClass::from_json(&out).unwrap();
    assert_eq!(back, obj);
    match ContractClass::Sierra(back).into_json() {
        JsonValue::Object(fs) => match &fs[2].1 {
            JsonValue::Object(g) => match &g[0].1 {
                JsonValue::Array(xs) => assert_eq!(
                    format!("{:?}", xs[1].canonicalize()),
                    format!("{:?}", json(r#"{"selector": "0xaae3b5e9", "function_idx": 2}"#))
                ),
                _ => panic!("array expected"),
            },
            _ => panic!("object expected"),
        },
        _ => panic!("object expected"),
    }
}

#[test]
fn legacy_class_written_back_to_wire_json() {
    let obj = DeprecatedContractClass::from_json(&json(&legacy_text("[1]"))).unwrap();
    let out = ContractClass::Cairo0(obj).into_json();
    assert!(matches!(ContractClass::from_json(&out), Ok(ContractClass::Cairo0(_))));
}
