use protoduck::error::ProtoDuckError;
use protoduck::extract::{extract_field_value, TextPiece};
use protoduck::from_json::json_to_proto;
use protoduck::json::{JsonNumber, JsonValue};
use protoduck::schema::{
    get_message_descriptor, EnumDescriptor, EnumValueDescriptor, FieldDescriptor, Kind,
    MessageDescriptor, Schema,
};
use protoduck::to_json::{map_key_to_string, message_to_json};
use protoduck::value::{clone_message, DynamicMessage, FloatRepr, MapKey, Value};
use protoduck::well_known_types::{json_to_proto_with_wkt, normalize_output_value};

fn field(name: &str, kind: Kind, is_list: bool, is_map: bool, default_value: Value) -> FieldDescriptor {
    FieldDescriptor { name: name.to_string(), kind, is_list, is_map, default_value, oneof: None }
}

fn message_type(full_name: &str, fields: Vec<FieldDescriptor>, is_map_entry: bool) -> MessageDescriptor {
    MessageDescriptor { full_name: full_name.to_string(), fields, is_map_entry }
}

fn empty(descriptor: usize) -> Value {
    Value::Message(DynamicMessage { descriptor, fields: vec![] })
}

fn zero_double() -> Value {
    Value::F64(FloatRepr::Decoded {
        bits: 0,
        json: JsonNumber::Float { bits: 0, fits_f32: true },
        text: "0".to_string(),
    })
}

/// shop.Order { int64 id = 1; string name = 2; repeated string tags = 3;
/// Status status = 4; Item item = 5; map<string, int32> counts = 6;
/// bytes data = 7; google.protobuf.Timestamp created = 8; double ratio = 9; }
fn shop_schema() -> Schema {
    Schema {
        messages: vec![
            message_type(
                "shop.Order",
                vec![
                    field("id", Kind::Int64, false, false, Value::I64(0)),
                    field("name", Kind::String, false, false, Value::String(String::new())),
                    field("tags", Kind::String, true, false, Value::List(vec![])),
                    field("status", Kind::Enum(0), false, false, Value::EnumNumber(0)),
                    field("item", Kind::Message(1), false, false, empty(1)),
                    field("counts", Kind::Message(2), false, true, Value::MapOf(vec![])),
                    field("data", Kind::Bytes, false, false, Value::Bytes(vec![])),
                    field("created", Kind::Message(3), false, false, empty(3)),
                    field("ratio", Kind::Double, false, false, zero_double()),
                ],
                false,
            ),
            message_type(
                "shop.Item",
                vec![
                    field("sku", Kind::String, false, false, Value::String(String::new())),
                    field("qty", Kind::Uint32, false, false, Value::U32(0)),
                ],
                false,
            ),
            message_type(
                "shop.Order.CountsEntry",
                vec![
                    field("key", Kind::String, false, false, Value::String(String::new())),
                    field("value", Kind::Int32, false, false, Value::I32(0)),
                ],
                true,
            ),
            message_type(
                "google.protobuf.Timestamp",
                vec![
                    field("seconds", Kind::Int64, false, false, Value::I64(0)),
                    field("nanos", Kind::Int32, false, false, Value::I32(0)),
                ],
                false,
            ),
        ],
        enums: vec![EnumDescriptor {
            full_name: "shop.Status".to_string(),
            values: vec![
                EnumValueDescriptor { name: "UNKNOWN".to_string(), number: 0 },
                EnumValueDescriptor { name: "ACTIVE".to_string(), number: 1 },
            ],
        }],
    }
}

fn s(text: &str) -> String {
    text.to_string()
}

fn jstr(text: &str) -> JsonValue {
    JsonValue::String(text.to_string())
}

fn jint(v: u64) -> JsonValue {
    JsonValue::Number(JsonNumber::PosInt(v))
}

fn order() -> DynamicMessage {
    DynamicMessage {
        descriptor: 0,
        fields: vec![
            (0, Value::I64(42)),
            (1, Value::String(s("Alice"))),
            (2, Value::List(vec![Value::String(s("a")), Value::String(s("b"))])),
            (3, Value::EnumNumber(1)),
            (
                4,
                Value::Message(DynamicMessage {
                    descriptor: 1,
                    fields: vec![(0, Value::String(s("s1"))), (1, Value::U32(2))],
                }),
            ),
            (5, Value::MapOf(vec![(MapKey::String(s("x")), Value::I32(3))])),
            (6, Value::Bytes(vec![1, 2, 3])),
        ],
    }
}

fn order_json() -> JsonValue {
    JsonValue::Object(vec![
        (s("id"), jint(42)),
        (s("name"), jstr("Alice")),
        (s("tags"), JsonValue::Array(vec![jstr("a"), jstr("b")])),
        (s("status"), jstr("ACTIVE")),
        (s("item"), JsonValue::Object(vec![(s("sku"), jstr("s1")), (s("qty"), jint(2))])),
        (s("counts"), JsonValue::Object(vec![(s("x"), jint(3))])),
        (s("data"), jstr("AQID")),
    ])
}

fn text_of(pieces: Vec<TextPiece>) -> String {
    let mut out = String::new();
    for p in pieces {
        match p {
            TextPiece::Text(t) => out.push_str(&t),
            TextPiece::Json(j) => panic!("unexpected JSON piece {:?}", j),
        }
    }
    out
}

#[test]
fn schema_is_well_formed() {
    let schema = shop_schema();
    assert!(schema.check());
    assert_eq!(get_message_descriptor(&schema, "shop.Item").unwrap(), 1);
    assert_eq!(
        get_message_descriptor(&schema, "shop.Nope").unwrap_err(),
        ProtoDuckError::MessageTypeNotFound(s("shop.Nope"))
    );
}

#[test]
fn schema_check_rejects_dangling_type() {
    let mut schema = shop_schema();
    schema.messages[1].fields[0].kind = Kind::Message(9);
    assert!(!schema.check());
    let mut schema = shop_schema();
    schema.messages[2].fields.pop();
    assert!(!schema.check());
}

#[test]
fn message_to_json_writes_set_fields_in_field_order() {
    let schema = shop_schema();
    let json = message_to_json(&schema, &order()).unwrap();
    assert_eq!(json, order_json());
}

#[test]
fn message_to_json_writes_unset_lists_and_maps_empty() {
    let schema = shop_schema();
    let json = message_to_json(&schema, &DynamicMessage { descriptor: 0, fields: vec![] }).unwrap();
    assert_eq!(
        json,
        JsonValue::Object(vec![
            (s("tags"), JsonValue::Array(vec![])),
            (s("counts"), JsonValue::Object(vec![])),
        ])
    );
}

#[test]
fn message_to_json_writes_unknown_enum_number() {
    let schema = shop_schema();
    let m = DynamicMessage { descriptor: 0, fields: vec![(3, Value::EnumNumber(-7))] };
    let json = message_to_json(&schema, &m).unwrap();
    assert_eq!(
        json,
        JsonValue::Object(vec![
            (s("tags"), JsonValue::Array(vec![])),
            (s("status"), JsonValue::Number(JsonNumber::NegInt(-7))),
            (s("counts"), JsonValue::Object(vec![])),
        ])
    );
}

#[test]
fn message_to_json_writes_timestamp_as_rfc3339() {
    let schema = shop_schema();
    let ts = |seconds: i64, nanos: i32| DynamicMessage {
        descriptor: 0,
        fields: vec![(
            7,
            Value::Message(DynamicMessage {
                descriptor: 3,
                fields: vec![(0, Value::I64(seconds)), (1, Value::I32(nanos))],
            }),
        )],
    };
    let created = |m: DynamicMessage| match message_to_json(&schema, &m).unwrap() {
        JsonValue::Object(entries) => entries.into_iter().find(|(k, _)| k == "created").unwrap().1,
        other => panic!("not an object: {:?}", other),
    };
    assert_eq!(created(ts(1_700_000_000, 0)), jstr("2023-11-14T22:13:20Z"));
    assert_eq!(created(ts(1_700_000_000, 500_000_000)), jstr("2023-11-14T22:13:20.500Z"));
    assert_eq!(created(ts(0, 0)), jstr("1970-01-01T00:00:00Z"));
}

#[test]
fn message_to_json_rejects_unrepresentable_timestamp() {
    let schema = shop_schema();
    let m = DynamicMessage {
        descriptor: 0,
        fields: vec![(
            7,
            Value::Message(DynamicMessage {
                descriptor: 3,
                fields: vec![(0, Value::I64(i64::MAX)), (1, Value::I32(0))],
            }),
        )],
    };
    let err = message_to_json(&schema, &m).unwrap_err();
    assert_eq!(
        err,
        ProtoDuckError::InvalidFieldValue {
            field: s("timestamp"),
            expected: s("valid protobuf Timestamp"),
            actual: format!("seconds={}, nanos=0", i64::MAX),
        }
    );
}

#[test]
fn message_to_json_writes_decoded_double_as_its_number() {
    let schema = shop_schema();
    let bits = 1.5f64.to_bits();
    let m = DynamicMessage {
        descriptor: 0,
        fields: vec![(
            8,
            Value::F64(FloatRepr::Decoded {
                bits,
                json: JsonNumber::Float { bits, fits_f32: true },
                text: s("1.5"),
            }),
        )],
    };
    match message_to_json(&schema, &m).unwrap() {
        JsonValue::Object(entries) => {
            assert_eq!(entries[2], (s("ratio"), JsonValue::Number(JsonNumber::Float { bits, fits_f32: true })));
        }
        other => panic!("not an object: {:?}", other),
    }
    assert_eq!(text_of(extract_field_value(&schema, &m, "ratio").unwrap()), "1.5");
}

#[test]
fn json_to_proto_reads_every_kind_of_field() {
    let schema = shop_schema();
    let m = json_to_proto(&schema, &Ok(order_json()), "shop.Order").unwrap();
    assert_eq!(m, order());
}

#[test]
fn json_to_proto_accepts_integer_strings() {
    let schema = shop_schema();
    let doc = JsonValue::Object(vec![
        (s("id"), jstr("-9000000000")),
        (s("item"), JsonValue::Object(vec![(s("qty"), jstr("+7"))])),
    ]);
    let m = json_to_proto(&schema, &Ok(doc), "shop.Order").unwrap();
    assert_eq!(
        m,
        DynamicMessage {
            descriptor: 0,
            fields: vec![
                (0, Value::I64(-9_000_000_000)),
                (4, Value::Message(DynamicMessage { descriptor: 1, fields: vec![(1, Value::U32(7))] })),
            ],
        }
    );
}

#[test]
fn json_to_proto_reads_enum_number_and_timestamp() {
    let schema = shop_schema();
    let doc = JsonValue::Object(vec![
        (s("status"), jint(5)),
        (s("created"), jstr("2023-11-14T22:13:20.5Z")),
    ]);
    let m = json_to_proto(&schema, &Ok(doc), "shop.Order").unwrap();
    assert_eq!(
        m,
        DynamicMessage {
            descriptor: 0,
            fields: vec![
                (3, Value::EnumNumber(5)),
                (
                    7,
                    Value::Message(DynamicMessage {
                        descriptor: 3,
                        fields: vec![(0, Value::I64(1_700_000_000)), (1, Value::I32(500_000_000))],
                    }),
                ),
            ],
        }
    );
}

#[test]
fn json_to_proto_map_keeps_last_value_of_a_key() {
    let schema = shop_schema();
    let doc = JsonValue::Object(vec![(
        s("counts"),
        JsonValue::Object(vec![(s("a"), jint(1)), (s("b"), jint(2)), (s("a"), jint(3))]),
    )]);
    let m = json_to_proto(&schema, &Ok(doc), "shop.Order").unwrap();
    assert_eq!(
        m.fields,
        vec![(
            5,
            Value::MapOf(vec![
                (MapKey::String(s("a")), Value::I32(3)),
                (MapKey::String(s("b")), Value::I32(2)),
            ])
        )]
    );
}

#[test]
fn json_to_proto_rejects_unknown_field() {
    let schema = shop_schema();
    let doc = JsonValue::Object(vec![(s("id"), jint(1)), (s("nope"), jint(2))]);
    assert_eq!(
        json_to_proto(&schema, &Ok(doc), "shop.Order").unwrap_err(),
        ProtoDuckError::FieldNotFound(s("nope"), s("shop.Order"))
    );
}

#[test]
fn json_to_proto_rejects_wrong_types() {
    let schema = shop_schema();
    let cases = vec![
        (s("name"), jint(3), "string", "number"),
        (s("tags"), jstr("a"), "array", "string"),
        (s("counts"), JsonValue::Array(vec![]), "object", "array"),
        (s("id"), JsonValue::Bool(true), "integer or integer string", "boolean"),
        (s("status"), JsonValue::Null, "enum name or number", "null"),
        (s("ratio"), jstr("1.0"), "number", "string"),
    ];
    for (name, value, expected, actual) in cases {
        let doc = JsonValue::Object(vec![(name.clone(), value)]);
        assert_eq!(
            json_to_proto(&schema, &Ok(doc), "shop.Order").unwrap_err(),
            ProtoDuckError::InvalidFieldValue { field: name, expected: s(expected), actual: s(actual) }
        );
    }
}

#[test]
fn json_to_proto_rejects_out_of_range_and_bad_text() {
    let schema = shop_schema();
    let qty = |v: JsonValue| JsonValue::Object(vec![(s("item"), JsonValue::Object(vec![(s("qty"), v)]))]);
    assert_eq!(
        json_to_proto(&schema, &Ok(qty(jint(1 << 40))), "shop.Order").unwrap_err(),
        ProtoDuckError::InvalidFieldValue { field: s("qty"), expected: s("uint32"), actual: s("number") }
    );
    assert_eq!(
        json_to_proto(&schema, &Ok(qty(jstr("-1"))), "shop.Order").unwrap_err(),
        ProtoDuckError::InvalidFieldValue {
            field: s("qty"),
            expected: s("unsigned integer or integer string"),
            actual: s("string"),
        }
    );
    let status = JsonValue::Object(vec![(s("status"), jstr("GONE"))]);
    assert_eq!(
        json_to_proto(&schema, &Ok(status), "shop.Order").unwrap_err(),
        ProtoDuckError::InvalidFieldValue {
            field: s("status"),
            expected: s("enum shop.Status name"),
            actual: s("GONE"),
        }
    );
    let infinite = JsonValue::Object(vec![(
        s("ratio"),
        JsonValue::Number(JsonNumber::Float { bits: f64::INFINITY.to_bits(), fits_f32: false }),
    )]);
    assert_eq!(
        json_to_proto(&schema, &Ok(infinite), "shop.Order").unwrap_err(),
        ProtoDuckError::InvalidFieldValue { field: s("ratio"), expected: s("finite double"), actual: s("number") }
    );
    let bytes = JsonValue::Object(vec![(s("data"), jstr("not base64!"))]);
    match json_to_proto(&schema, &Ok(bytes), "shop.Order").unwrap_err() {
        ProtoDuckError::InvalidFieldValue { field, expected, .. } => {
            assert_eq!(field, "data");
            assert_eq!(expected, "valid base64 string");
        }
        other => panic!("unexpected error {:?}", other),
    }
    let when = JsonValue::Object(vec![(s("created"), jstr("yesterday"))]);
    assert_eq!(
        json_to_proto(&schema, &Ok(when), "shop.Order").unwrap_err(),
        ProtoDuckError::InvalidFieldValue {
            field: s("created"),
            expected: s("RFC3339 timestamp string"),
            actual: s("string"),
        }
    );
}

#[test]
fn json_to_proto_reports_document_and_type_errors() {
    let schema = shop_schema();
    assert_eq!(
        json_to_proto(&schema, &Err(s("expected value at line 1 column 1")), "shop.Order").unwrap_err(),
        ProtoDuckError::JsonDeserializeError(s("Invalid JSON: expected value at line 1 column 1"))
    );
    assert_eq!(
        json_to_proto(&schema, &Ok(JsonValue::Object(vec![])), "shop.Nope").unwrap_err(),
        ProtoDuckError::MessageTypeNotFound(s("shop.Nope"))
    );
    assert_eq!(
        json_to_proto(&schema, &Ok(JsonValue::Array(vec![])), "shop.Order").unwrap_err(),
        ProtoDuckError::InvalidFieldValue {
            field: s("<message>"),
            expected: s("JSON object for shop.Order"),
            actual: s("array"),
        }
    );
}

#[test]
fn json_round_trip_gives_back_the_message() {
    let schema = shop_schema();
    let json = message_to_json(&schema, &order()).unwrap();
    let back = json_to_proto(&schema, &Ok(json), "shop.Order").unwrap();
    assert_eq!(back, order());
    let sparse = DynamicMessage { descriptor: 0, fields: vec![(1, Value::String(s("x")))] };
    let json = message_to_json(&schema, &sparse).unwrap();
    let back = json_to_proto(&schema, &Ok(json), "shop.Order").unwrap();
    assert_eq!(
        back,
        DynamicMessage {
            descriptor: 0,
            fields: vec![
                (1, Value::String(s("x"))),
                (2, Value::List(vec![])),
                (5, Value::MapOf(vec![])),
            ],
        }
    );
}

#[test]
fn json_round_trip_sets_both_timestamp_fields() {
    let schema = shop_schema();
    let with_created = |fields: Vec<(usize, Value)>| DynamicMessage {
        descriptor: 0,
        fields: vec![(7, Value::Message(DynamicMessage { descriptor: 3, fields }))],
    };
    let full = with_created(vec![(0, Value::I64(1_700_000_000)), (1, Value::I32(500_000_000))]);
    let json = message_to_json(&schema, &full).unwrap();
    let back = json_to_proto(&schema, &Ok(json), "shop.Order").unwrap();
    assert_eq!(
        back,
        DynamicMessage {
            descriptor: 0,
            fields: vec![
                (2, Value::List(vec![])),
                (5, Value::MapOf(vec![])),
                (
                    7,
                    Value::Message(DynamicMessage {
                        descriptor: 3,
                        fields: vec![(0, Value::I64(1_700_000_000)), (1, Value::I32(500_000_000))],
                    }),
                ),
            ],
        }
    );
    let seconds_only = with_created(vec![(0, Value::I64(-86_400))]);
    let json = message_to_json(&schema, &seconds_only).unwrap();
    let back = json_to_proto(&schema, &Ok(json), "shop.Order").unwrap();
    assert_eq!(
        back.fields[2],
        (
            7,
            Value::Message(DynamicMessage {
                descriptor: 3,
                fields: vec![(0, Value::I64(-86_400)), (1, Value::I32(0))],
            })
        )
    );
}

#[test]
fn wkt_conversion_checks_timestamp_text_first() {
    let schema = shop_schema();
    let doc = JsonValue::Object(vec![(s("created"), jstr("2023-11-14 22:13"))]);
    match json_to_proto_with_wkt(&schema, &Ok(doc), "shop.Order").unwrap_err() {
        ProtoDuckError::JsonDeserializeError(msg) => assert!(msg.starts_with("Invalid Timestamp: ")),
        other => panic!("unexpected error {:?}", other),
    }
}

#[test]
fn wkt_conversion_accepts_canonical_timestamp() {
    let schema = shop_schema();
    let doc = JsonValue::Object(vec![(s("created"), jstr("1970-01-01T00:00:01Z"))]);
    assert_eq!(
        json_to_proto_with_wkt(&schema, &Ok(doc), "shop.Order").unwrap(),
        DynamicMessage {
            descriptor: 0,
            fields: vec![(
                7,
                Value::Message(DynamicMessage {
                    descriptor: 3,
                    fields: vec![(0, Value::I64(1)), (1, Value::I32(0))],
                }),
            )],
        }
    );
}

#[test]
fn enum_values_of_a_map_are_written_by_name() {
    let mut schema = shop_schema();
    schema.messages[2].fields[1].kind = Kind::Enum(0);
    schema.messages[2].fields[1].default_value = Value::EnumNumber(0);
    assert!(schema.check());
    let m = DynamicMessage {
        descriptor: 0,
        fields: vec![(
            5,
            Value::MapOf(vec![
                (MapKey::String(s("k")), Value::EnumNumber(1)),
                (MapKey::String(s("u")), Value::EnumNumber(9)),
            ]),
        )],
    };
    let json = message_to_json(&schema, &m).unwrap();
    assert_eq!(
        json,
        JsonValue::Object(vec![
            (s("tags"), JsonValue::Array(vec![])),
            (s("counts"), JsonValue::Object(vec![(s("k"), jstr("ACTIVE")), (s("u"), jint(9))])),
        ])
    );
    let back = json_to_proto(&schema, &Ok(json), "shop.Order").unwrap();
    assert_eq!(back.fields[1], m.fields[0]);
}

#[test]
fn wkt_conversion_without_timestamps_matches_plain_conversion() {
    let schema = shop_schema();
    assert_eq!(json_to_proto_with_wkt(&schema, &Ok(order_json()), "shop.Order").unwrap(), order());
    let doc = JsonValue::Object(vec![(s("item"), JsonValue::Object(vec![(s("zzz"), jint(1))]))]);
    assert_eq!(
        json_to_proto_with_wkt(&schema, &Ok(doc), "shop.Order").unwrap_err(),
        ProtoDuckError::FieldNotFound(s("zzz"), s("shop.Item"))
    );
    assert_eq!(
        json_to_proto_with_wkt(&schema, &Err(s("EOF")), "shop.Order").unwrap_err(),
        ProtoDuckError::JsonDeserializeError(s("Invalid JSON: EOF"))
    );
}

#[test]
fn extract_reads_values_by_path() {
    let schema = shop_schema();
    let m = order();
    let get = |path: &str| text_of(extract_field_value(&schema, &m, path).unwrap());
    assert_eq!(get("id"), "42");
    assert_eq!(get("name"), "Alice");
    assert_eq!(get("status"), "ACTIVE");
    assert_eq!(get("item.sku"), "s1");
    assert_eq!(get("item.qty"), "2");
    assert_eq!(get("tags[1]"), "b");
    assert_eq!(get("tags"), "[a, b]");
    assert_eq!(get("counts"), "{x: 3}");
    assert_eq!(get("counts[\"x\"]"), "3");
    assert_eq!(get("counts['x']"), "3");
    assert_eq!(get("data"), "AQID");
    assert_eq!(get("ratio"), "0");
}

#[test]
fn extract_writes_nested_message_as_json() {
    let schema = shop_schema();
    let pieces = extract_field_value(&schema, &order(), "item").unwrap();
    assert_eq!(
        pieces,
        vec![TextPiece::Json(JsonValue::Object(vec![(s("sku"), jstr("s1")), (s("qty"), jint(2))]))]
    );
}

#[test]
fn extract_reports_path_errors() {
    let schema = shop_schema();
    let m = order();
    let err = |path: &str| extract_field_value(&schema, &m, path).unwrap_err();
    assert_eq!(err("tags[5]"), ProtoDuckError::IndexOutOfBounds(5, s("tags[5]"), 2));
    assert_eq!(err("id[0]"), ProtoDuckError::NotARepeatedField(s("id[0]")));
    assert_eq!(err("counts['zz']"), ProtoDuckError::MapKeyNotFound(s("zz"), s("counts['zz']")));
    assert_eq!(err("nope"), ProtoDuckError::FieldNotFound(s("nope"), s("shop.Order")));
    assert_eq!(err(""), ProtoDuckError::InvalidFieldPath(s("Empty field path")));
    assert_eq!(
        err("counts['x"),
        ProtoDuckError::InvalidFieldPath(s("Expected ']' after quoted map key"))
    );
    assert_eq!(
        err("name.first"),
        ProtoDuckError::InvalidFieldPath(s("Cannot access field 'first' on non-message value"))
    );
    assert_eq!(
        err("tags.first"),
        ProtoDuckError::InvalidFieldPath(s(
            "Cannot access field 'first' on a repeated value - use an index first"
        ))
    );
    assert_eq!(
        err("name['k']"),
        ProtoDuckError::InvalidFieldPath(s("Cannot access map key 'k' on non-map value"))
    );
}

#[test]
fn map_keys_are_written_as_to_string_writes_them() {
    assert_eq!(map_key_to_string(&MapKey::I32(-5)), "-5");
    assert_eq!(map_key_to_string(&MapKey::U64(u64::MAX)), "18446744073709551615");
    assert_eq!(map_key_to_string(&MapKey::I64(i64::MIN)), "-9223372036854775808");
    assert_eq!(map_key_to_string(&MapKey::Bool(true)), "true");
    assert_eq!(map_key_to_string(&MapKey::String(s("k"))), "k");
}

#[test]
fn error_messages_follow_the_error_texts() {
    assert_eq!(
        ProtoDuckError::FieldNotFound(s("a"), s("b")).message(),
        "Field 'a' not found in message type 'b'"
    );
    assert_eq!(
        ProtoDuckError::MessageTypeNotFound(s("x.Y")).message(),
        "Message type 'x.Y' not found. Did you load the schema with proto_schema_add()?"
    );
    assert_eq!(
        ProtoDuckError::IndexOutOfBounds(3, s("tags[3]"), 2).message(),
        "Index 3 out of bounds for repeated field 'tags[3]' (length: 2)"
    );
    assert_eq!(
        ProtoDuckError::InvalidFieldValue { field: s("f"), expected: s("e"), actual: s("a") }.message(),
        "Invalid value for field 'f': expected e, got a"
    );
    assert_eq!(ProtoDuckError::DecodeError(s("bad")).message(), "Failed to decode protobuf message: bad");
    assert_eq!(ProtoDuckError::InvalidFieldPath(s("p")).message(), "Invalid field path syntax: p");
    assert_eq!(ProtoDuckError::SchemaParseError(s("p")).message(), "Failed to parse proto schema: p");
    assert_eq!(ProtoDuckError::JsonSerializeError(s("p")).message(), "Failed to serialize to JSON: p");
    assert_eq!(ProtoDuckError::JsonDeserializeError(s("p")).message(), "Failed to deserialize JSON: p");
    assert_eq!(
        ProtoDuckError::NotARepeatedField(s("p")).message(),
        "Cannot use array index on non-repeated field 'p'"
    );
    assert_eq!(
        ProtoDuckError::MapKeyNotFound(s("k"), s("p")).message(),
        "Map key 'k' not found in field 'p'"
    );
}

#[test]
fn wkt_conversion_is_plain_conversion_without_timestamp_types() {
    let mut schema = shop_schema();
    schema.messages[3].full_name = s("shop.When");
    let doc = JsonValue::Object(vec![
        (s("created"), JsonValue::Object(vec![(s("seconds"), jint(5))])),
        (s("tags"), JsonValue::Array(vec![jstr("t")])),
    ]);
    let plain = json_to_proto(&schema, &Ok(doc), "shop.Order").unwrap();
    let doc = JsonValue::Object(vec![
        (s("created"), JsonValue::Object(vec![(s("seconds"), jint(5))])),
        (s("tags"), JsonValue::Array(vec![jstr("t")])),
    ]);
    assert_eq!(json_to_proto_with_wkt(&schema, &Ok(doc), "shop.Order").unwrap(), plain);
    assert_eq!(
        plain.fields[0],
        (7, Value::Message(DynamicMessage { descriptor: 3, fields: vec![(0, Value::I64(5))] }))
    );
}

#[test]
fn negative_nanos_have_no_timestamp_text() {
    let schema = shop_schema();
    let m = DynamicMessage {
        descriptor: 0,
        fields: vec![(
            7,
            Value::Message(DynamicMessage { descriptor: 3, fields: vec![(1, Value::I32(-1))] }),
        )],
    };
    assert_eq!(
        message_to_json(&schema, &m).unwrap_err(),
        ProtoDuckError::InvalidFieldValue {
            field: s("timestamp"),
            expected: s("valid protobuf Timestamp"),
            actual: s("seconds=0, nanos=-1"),
        }
    );
}

#[test]
fn output_normalization_writes_canonical_timestamps() {
    let schema = shop_schema();
    let neutral = JsonValue::Object(vec![
        (s("created"), JsonValue::Object(vec![(s("nanos"), jint(500_000_000)), (s("seconds"), jint(1))])),
        (s("name"), jstr("x")),
        (s("other"), jint(7)),
    ]);
    assert_eq!(
        normalize_output_value(&schema, &neutral, 0).unwrap(),
        JsonValue::Object(vec![
            (s("created"), jstr("1970-01-01T00:00:01.500Z")),
            (s("name"), jstr("x")),
            (s("other"), jint(7)),
        ])
    );
    let text = JsonValue::Object(vec![(s("created"), jstr("1970-01-01T01:00:00+01:00"))]);
    assert_eq!(
        normalize_output_value(&schema, &text, 0).unwrap(),
        JsonValue::Object(vec![(s("created"), jstr("1970-01-01T00:00:00Z"))])
    );
    let bad = JsonValue::Object(vec![(s("created"), jint(3))]);
    assert_eq!(
        normalize_output_value(&schema, &bad, 0).unwrap_err(),
        ProtoDuckError::JsonSerializeError(s(
            "Invalid Timestamp: expected RFC 3339 text or an object, got number"
        ))
    );
    let odd = JsonValue::Object(vec![(s("created"), JsonValue::Object(vec![(s("when"), jint(3))]))]);
    assert_eq!(
        normalize_output_value(&schema, &odd, 0).unwrap_err(),
        ProtoDuckError::JsonSerializeError(s("Invalid Timestamp: expected seconds and nanos"))
    );
}

#[test]
fn check_value_rejects_repeated_map_keys() {
    let schema = shop_schema();
    let twice = Value::MapOf(vec![
        (MapKey::String(s("a")), Value::I32(1)),
        (MapKey::String(s("a")), Value::I32(2)),
    ]);
    assert!(!schema.check_value(&twice));
    let once = Value::MapOf(vec![
        (MapKey::String(s("a")), Value::I32(1)),
        (MapKey::String(s("b")), Value::I32(2)),
    ]);
    assert!(schema.check_value(&once));
}

#[test]
fn extraction_through_a_sub_message_matches_extraction_from_it() {
    let schema = shop_schema();
    let m = order();
    let item = match &m.fields[4].1 {
        Value::Message(sub) => clone_message(sub),
        other => panic!("not a message: {:?}", other),
    };
    for q in ["sku", "qty"] {
        assert_eq!(
            extract_field_value(&schema, &m, &format!("item.{}", q)).unwrap(),
            extract_field_value(&schema, &item, q).unwrap()
        );
    }
    assert!(extract_field_value(&schema, &m, "item.nope").is_err());
    assert!(extract_field_value(&schema, &item, "nope").is_err());
}

#[test]
fn json_to_proto_keeps_one_field_of_a_oneof() {
    let mut schema = shop_schema();
    schema.messages[0].fields[0].oneof = Some(0);
    schema.messages[0].fields[1].oneof = Some(0);
    assert!(schema.check());
    let both = JsonValue::Object(vec![(s("id"), jint(5)), (s("name"), jstr("n"))]);
    let m = json_to_proto(&schema, &Ok(both), "shop.Order").unwrap();
    assert_eq!(m.fields, vec![(1, Value::String(s("n")))]);
    let reversed = JsonValue::Object(vec![(s("name"), jstr("n")), (s("id"), jint(5))]);
    let m = json_to_proto(&schema, &Ok(reversed), "shop.Order").unwrap();
    assert_eq!(m.fields, vec![(0, Value::I64(5))]);
    let apart = JsonValue::Object(vec![(s("id"), jint(5)), (s("data"), jstr("AQID"))]);
    let m = json_to_proto(&schema, &Ok(apart), "shop.Order").unwrap();
    assert_eq!(m.fields, vec![(0, Value::I64(5)), (6, Value::Bytes(vec![1, 2, 3]))]);
    let mut bad = shop_schema();
    bad.messages[0].fields[2].oneof = Some(0);
    assert!(!bad.check());
    let mut odd = shop_schema();
    odd.messages[3].fields[0].oneof = Some(0);
    odd.messages[3].fields[1].oneof = Some(0);
    assert!(odd.check());
    let created = JsonValue::Object(vec![(s("created"), jstr("1970-01-01T00:00:01.5Z"))]);
    let m = json_to_proto(&odd, &Ok(created), "shop.Order").unwrap();
    assert_eq!(
        m.fields,
        vec![(
            7,
            Value::Message(DynamicMessage { descriptor: 3, fields: vec![(1, Value::I32(500_000_000))] })
        )]
    );
}

#[test]
fn timestamp_values_of_a_map_are_written_as_objects() {
    let mut schema = shop_schema();
    schema.messages[2].fields[1].kind = Kind::Message(3);
    schema.messages[2].fields[1].default_value = empty(3);
    assert!(schema.check());
    let m = DynamicMessage {
        descriptor: 0,
        fields: vec![(
            5,
            Value::MapOf(vec![(
                MapKey::String(s("k")),
                Value::Message(DynamicMessage {
                    descriptor: 3,
                    fields: vec![(0, Value::I64(7)), (1, Value::I32(9))],
                }),
            )]),
        )],
    };
    let json = message_to_json(&schema, &m).unwrap();
    assert_eq!(
        json,
        JsonValue::Object(vec![
            (s("tags"), JsonValue::Array(vec![])),
            (
                s("counts"),
                JsonValue::Object(vec![(
                    s("k"),
                    JsonValue::Object(vec![(s("seconds"), jint(7)), (s("nanos"), jint(9))])
                )])
            ),
        ])
    );
}

#[test]
fn output_normalization_refuses_timestamps_out_of_range() {
    let schema = shop_schema();
    let nanos = JsonValue::Object(vec![(
        s("created"),
        JsonValue::Object(vec![(s("seconds"), jint(1)), (s("nanos"), jint(1_000_000_000))]),
    )]);
    assert_eq!(
        normalize_output_value(&schema, &nanos, 0).unwrap_err(),
        ProtoDuckError::JsonSerializeError(s("timestamp out of range"))
    );
    let late = JsonValue::Object(vec![(
        s("created"),
        JsonValue::Object(vec![(s("seconds"), jint(253_402_300_800)), (s("nanos"), jint(0))]),
    )]);
    assert_eq!(
        normalize_output_value(&schema, &late, 0).unwrap_err(),
        ProtoDuckError::JsonSerializeError(s("timestamp out of range"))
    );
    let last = JsonValue::Object(vec![(
        s("created"),
        JsonValue::Object(vec![(s("seconds"), jint(253_402_300_799)), (s("nanos"), jint(0))]),
    )]);
    assert_eq!(
        normalize_output_value(&schema, &last, 0).unwrap(),
        JsonValue::Object(vec![(s("created"), jstr("9999-12-31T23:59:59Z"))])
    );
}

#[test]
fn schema_check_rejects_repeated_names() {
    let mut schema = shop_schema();
    schema.messages[1].fields[1].name = s("sku");
    assert!(!schema.check());
    let mut schema = shop_schema();
    schema.enums[0].values[1].name = s("UNKNOWN");
    assert!(!schema.check());
}

#[test]
fn output_normalization_keeps_json_without_timestamps() {
    let schema = shop_schema();
    let item = JsonValue::Object(vec![
        (s("sku"), jstr("s1")),
        (s("qty"), jstr("not a number")),
        (s("extra"), JsonValue::Object(vec![(s("seconds"), jint(1))])),
    ]);
    assert_eq!(normalize_output_value(&schema, &item, 1).unwrap(), item);
    let counts = JsonValue::Array(vec![jint(1), JsonValue::Null]);
    assert_eq!(normalize_output_value(&schema, &counts, 1).unwrap(), counts);
}

#[test]
fn message_to_json_writes_valid_timestamps_and_every_scalar() {
    let schema = shop_schema();
    let m = DynamicMessage {
        descriptor: 0,
        fields: vec![
            (0, Value::I64(-3)),
            (3, Value::EnumNumber(0)),
            (6, Value::Bytes(vec![255, 0])),
            (
                7,
                Value::Message(DynamicMessage {
                    descriptor: 3,
                    fields: vec![(0, Value::I64(253_402_300_799)), (1, Value::I32(999_999_999))],
                }),
            ),
            (8, zero_double()),
        ],
    };
    let json = message_to_json(&schema, &m).unwrap();
    assert_eq!(
        json,
        JsonValue::Object(vec![
            (s("id"), JsonValue::Number(JsonNumber::NegInt(-3))),
            (s("tags"), JsonValue::Array(vec![])),
            (s("status"), jstr("UNKNOWN")),
            (s("counts"), JsonValue::Object(vec![])),
            (s("data"), jstr("/wA=")),
            (s("created"), jstr("9999-12-31T23:59:59.999999999Z")),
            (s("ratio"), JsonValue::Number(JsonNumber::Float { bits: 0, fits_f32: true })),
        ])
    );
}
