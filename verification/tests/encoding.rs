use storage_trace::consensus::SerializationError;
use storage_trace::events::{
    to_raw_text, ContractCallEventData, MapDeleteEventData, MapWriteEventData, StorageEvent,
    VarSetEventData, VmTraceEvent,
};
use storage_trace::hex::to_hex_text;
use storage_trace::principal::{
    PrincipalData, QualifiedContractIdentifier, StandardPrincipalData,
};
use storage_trace::text::same_text;
use storage_trace::value::{OptionalData, ResponseData, TupleEntry, Value};

fn account() -> StandardPrincipalData {
    StandardPrincipalData { version: 0x16, hash: [0xab; 20] }
}

fn contract(name: &str) -> QualifiedContractIdentifier {
    QualifiedContractIdentifier { issuer: account(), name: name.to_string() }
}

fn raw(value: Value) -> String {
    to_raw_text(&value).unwrap()
}

#[test]
fn hex_text_of_bytes() {
    assert_eq!(to_hex_text(&[]), "0x");
    assert_eq!(to_hex_text(&[0x00, 0x0f, 0xf0, 0x9a, 0xff]), "0x000ff09aff");
}

#[test]
fn texts_are_compared_by_contents() {
    assert!(same_text("map-set", "map-set"));
    assert!(!same_text("map-set", "map-get"));
    assert!(!same_text("map-set", "map-set?"));
    assert!(same_text("", ""));
}

#[test]
fn integers_take_sixteen_bytes() {
    assert_eq!(raw(Value::UInt(4)), "0x0100000000000000000000000000000004");
    assert_eq!(raw(Value::UInt(u128::MAX)), "0x01ffffffffffffffffffffffffffffffff");
    assert_eq!(raw(Value::Int(1)), "0x0000000000000000000000000000000001");
    assert_eq!(raw(Value::Int(-1)), "0x00ffffffffffffffffffffffffffffffff");
    assert_eq!(raw(Value::Int(-2)), "0x00fffffffffffffffffffffffffffffffe");
    assert_eq!(raw(Value::Int(i128::MIN)), "0x0080000000000000000000000000000000");
    assert_eq!(raw(Value::Int(i128::MAX)), "0x007fffffffffffffffffffffffffffffff");
    assert_eq!(raw(Value::UInt(0x0102_0304)), "0x0100000000000000000000000001020304");
}

#[test]
fn simple_values() {
    assert_eq!(raw(Value::Bool(true)), "0x03");
    assert_eq!(raw(Value::Bool(false)), "0x04");
    assert_eq!(raw(Value::Buffer(vec![0xde, 0xad])), "0x0200000002dead");
    assert_eq!(raw(Value::StringAscii(b"hi".to_vec())), "0x0d000000026869");
    assert_eq!(raw(Value::StringUtf8("\u{e9}".to_string())), "0x0e00000002c3a9");
    assert_eq!(raw(Value::Buffer(vec![])), "0x0200000000");
}

#[test]
fn principals() {
    let hash = "abababababababababababababababababababab";
    assert_eq!(
        raw(Value::Principal(PrincipalData::Standard(account()))),
        format!("0x0516{hash}")
    );
    assert_eq!(
        raw(Value::Principal(PrincipalData::Contract(contract("ab")))),
        format!("0x0616{hash}026162")
    );
    assert_eq!(
        PrincipalData::from(contract("ab")),
        PrincipalData::Contract(contract("ab"))
    );
}

#[test]
fn composed_values() {
    assert_eq!(raw(Value::Optional(OptionalData { data: None })), "0x09");
    assert_eq!(
        raw(Value::Optional(OptionalData { data: Some(Box::new(Value::Bool(true))) })),
        "0x0a03"
    );
    assert_eq!(
        raw(Value::Response(ResponseData { committed: true, data: Box::new(Value::Bool(false)) })),
        "0x0704"
    );
    assert_eq!(
        raw(Value::Response(ResponseData { committed: false, data: Box::new(Value::Bool(true)) })),
        "0x0803"
    );
    assert_eq!(
        raw(Value::List(vec![Value::Bool(true), Value::Bool(false)])),
        "0x0b000000020304"
    );
    assert_eq!(
        raw(Value::Tuple(vec![
            TupleEntry { name: "a".to_string(), value: Value::Bool(true) },
            TupleEntry { name: "bc".to_string(), value: Value::List(vec![]) },
        ])),
        "0x0c000000020161030262630b00000000"
    );
}

#[test]
fn no_two_values_share_a_text() {
    let values = vec![
        Value::Int(1),
        Value::UInt(1),
        Value::Bool(true),
        Value::Bool(false),
        Value::Buffer(vec![1]),
        Value::StringAscii(vec![1]),
        Value::StringUtf8("\u{1}".to_string()),
        Value::Optional(OptionalData { data: None }),
        Value::List(vec![Value::Bool(true)]),
        Value::List(vec![Value::List(vec![]), Value::List(vec![])]),
        Value::List(vec![Value::List(vec![Value::List(vec![])])]),
        Value::Tuple(vec![]),
        Value::Principal(PrincipalData::Standard(account())),
    ];
    for i in 0..values.len() {
        for j in 0..values.len() {
            assert_eq!(
                to_raw_text(&values[i]).unwrap() == to_raw_text(&values[j]).unwrap(),
                i == j
            );
        }
    }
}

#[test]
fn name_beyond_its_length_byte_is_refused() {
    let long = "n".repeat(256);
    let fits = "n".repeat(255);
    let tuple = |name: &str| {
        Value::Tuple(vec![TupleEntry { name: name.to_string(), value: Value::Bool(true) }])
    };
    assert_eq!(tuple(&long).serialize_to_vec(), Err(SerializationError::LengthOverflow));
    assert_eq!(tuple(&fits).serialize_to_vec().unwrap().len(), 1 + 4 + 1 + 255 + 1);
    let principal = |name: &str| Value::Principal(PrincipalData::Contract(contract(name)));
    assert_eq!(to_raw_text(&principal(&long)), Err(SerializationError::LengthOverflow));
    assert!(to_raw_text(&principal(&fits)).is_ok());
    let nested = Value::List(vec![Value::Optional(OptionalData {
        data: Some(Box::new(principal(&long))),
    })]);
    assert!(nested.serialize_to_vec().is_err());
}

#[test]
fn clones_are_equal() {
    let value = Value::Tuple(vec![
        TupleEntry {
            name: "a".to_string(),
            value: Value::List(vec![Value::UInt(1), Value::StringUtf8("x".to_string())]),
        },
        TupleEntry {
            name: "b".to_string(),
            value: Value::Response(ResponseData {
                committed: false,
                data: Box::new(Value::Optional(OptionalData {
                    data: Some(Box::new(Value::Principal(PrincipalData::Contract(contract(
                        "c",
                    ))))),
                })),
            }),
        },
    ]);
    assert_eq!(value.clone(), value);
}

#[test]
fn event_data_holds_raw_texts() {
    let long = Value::Principal(PrincipalData::Contract(contract(&"n".repeat(256))));
    let write = MapWriteEventData::try_from_values(
        contract("store"),
        "kv".to_string(),
        &Value::UInt(1),
        &Value::Bool(false),
    )
    .unwrap();
    assert_eq!(write.map_name, "kv");
    assert_eq!(write.raw_key, "0x0100000000000000000000000000000001");
    assert_eq!(write.raw_value, "0x04");
    assert!(MapWriteEventData::try_from_values(
        contract("store"),
        "kv".to_string(),
        &Value::UInt(1),
        &long
    )
    .is_err());
    let delete =
        MapDeleteEventData::try_from_value(contract("store"), "kv".to_string(), &Value::Bool(true))
            .unwrap();
    assert_eq!(delete.raw_key, "0x03");
    assert!(
        MapDeleteEventData::try_from_value(contract("store"), "kv".to_string(), &long).is_err()
    );
    assert!(VarSetEventData::try_from_value(contract("store"), "v".to_string(), &long).is_err());
    let call = ContractCallEventData::try_from_values(
        contract("callee"),
        None,
        PrincipalData::Standard(account()),
        "f".to_string(),
        &[&Value::Bool(true), &Value::Bool(false)],
        &Value::UInt(0),
    )
    .unwrap();
    assert_eq!(call.raw_args, vec!["0x03".to_string(), "0x04".to_string()]);
    assert_eq!(call.raw_result, "0x0100000000000000000000000000000000");
    assert!(ContractCallEventData::try_from_values(
        contract("callee"),
        None,
        PrincipalData::Standard(account()),
        "f".to_string(),
        &[&Value::Bool(true), &long],
        &Value::UInt(0),
    )
    .is_err());
}

#[test]
fn sizes_count_identifiers_and_texts() {
    let var_set = VmTraceEvent::Storage(StorageEvent::VarSet(
        VarSetEventData::try_from_value(contract("store"), "n".to_string(), &Value::UInt(1))
            .unwrap(),
    ));
    assert_eq!(var_set.approx_size(), 21 + 5 + 1 + 36);
    let write = |value| {
        MapWriteEventData::try_from_values(contract("s"), "kv".to_string(), &Value::Bool(true), value)
            .unwrap()
    };
    assert_eq!(
        VmTraceEvent::Storage(StorageEvent::MapSet(write(&Value::Bool(true)))).approx_size(),
        21 + 1 + 2 + 4 + 4
    );
    assert_eq!(
        VmTraceEvent::Storage(StorageEvent::MapInsert(write(&Value::UInt(1)))).approx_size(),
        21 + 1 + 2 + 4 + 36
    );
    let delete = VmTraceEvent::Storage(StorageEvent::MapDelete(
        MapDeleteEventData::try_from_value(contract("s"), "kv".to_string(), &Value::Bool(true))
            .unwrap(),
    ));
    assert_eq!(delete.approx_size(), 21 + 1 + 2 + 4);
    let call = |sender| {
        VmTraceEvent::ContractCall(
            ContractCallEventData::try_from_values(
                contract("callee"),
                sender,
                PrincipalData::Contract(contract("caller")),
                "inc".to_string(),
                &[&Value::Bool(true), &Value::Buffer(vec![1])],
                &Value::Bool(true),
            )
            .unwrap(),
        )
    };
    assert_eq!(call(None).approx_size(), 27 + 27 + 3 + 4 + 14 + 4);
    assert_eq!(
        call(Some(PrincipalData::Standard(account()))).approx_size(),
        27 + 21 + 27 + 3 + 4 + 14 + 4
    );
    assert_eq!(VmTraceEvent::Truncated { dropped: 1 }.approx_size(), 8);
    assert_eq!(VmTraceEvent::Truncated { dropped: u64::MAX }.approx_size(), 8);
}
