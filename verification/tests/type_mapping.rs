use protoduck::path::{parse_field_path, PathPart};

#[test]
fn test_parse_simple_path() {
    let parts = parse_field_path("name").unwrap();
    assert_eq!(parts.len(), 1);
    assert!(matches!(&parts[0], PathPart::Field(s) if s == "name"));
}

#[test]
fn test_parse_nested_path() {
    assert_eq!(parse_field_path("user.address.street").unwrap().len(), 3);
}

#[test]
fn test_parse_array_index() {
    let parts = parse_field_path("items[0]").unwrap();
    assert_eq!(parts.len(), 2);
    assert!(matches!(&parts[1], PathPart::Index(0)));
}

#[test]
fn test_parse_map_key() {
    let parts = parse_field_path("properties['key']").unwrap();
    assert_eq!(parts.len(), 2);
    assert!(matches!(&parts[1], PathPart::MapKey(s) if s == "key"));
}

use protoduck::extract::{extract_field_value, TextPiece};
use protoduck::error::ProtoDuckError;
use protoduck::schema::{FieldDescriptor, Kind, MessageDescriptor, Schema};
use protoduck::value::{DynamicMessage, MapKey, Value};

fn field(name: &str, kind: Kind, is_list: bool, is_map: bool, default_value: Value) -> FieldDescriptor {
    FieldDescriptor { name: name.to_string(), kind, is_list, is_map, default_value, oneof: None }
}

fn entry_type(full_name: &str, key: Kind, key_default: Value) -> MessageDescriptor {
    MessageDescriptor {
        full_name: full_name.to_string(),
        fields: vec![
            field("key", key, false, false, key_default),
            field("value", Kind::String, false, false, Value::String(String::new())),
        ],
        is_map_entry: true,
    }
}

fn map_test_schema() -> Schema {
    Schema {
        messages: vec![
            MessageDescriptor {
                full_name: "maptest.Maps".to_string(),
                fields: vec![
                    field("int64_values", Kind::Message(1), false, true, Value::MapOf(vec![])),
                    field("uint64_values", Kind::Message(2), false, true, Value::MapOf(vec![])),
                    field("string_values", Kind::Message(3), false, true, Value::MapOf(vec![])),
                ],
                is_map_entry: false,
            },
            entry_type("maptest.Maps.Int64ValuesEntry", Kind::Int64, Value::I64(0)),
            entry_type("maptest.Maps.Uint64ValuesEntry", Kind::Uint64, Value::U64(0)),
            entry_type("maptest.Maps.StringValuesEntry", Kind::String, Value::String(String::new())),
        ],
        enums: vec![],
    }
}

fn map_test_message() -> DynamicMessage {
    DynamicMessage {
        descriptor: 0,
        fields: vec![
            (0, Value::MapOf(vec![(MapKey::I64(1), Value::String("signed".to_string()))])),
            (1, Value::MapOf(vec![(MapKey::U64(1), Value::String("unsigned".to_string()))])),
            (
                2,
                Value::MapOf(vec![(
                    MapKey::String("1".to_string()),
                    Value::String("string".to_string()),
                )]),
            ),
        ],
    }
}

fn text_of(pieces: Vec<TextPiece>) -> String {
    let mut out = String::new();
    for p in pieces {
        match p {
            TextPiece::Text(t) => out.push_str(&t),
            TextPiece::Json(j) => panic!("unexpected JSON piece {:?}", j),
        }
    }
    out
}

#[test]
fn test_extract_map_key_uses_declared_key_type() {
    let schema = map_test_schema();
    assert!(schema.check());
    let message = map_test_message();
    assert_eq!(
        text_of(extract_field_value(&schema, &message, "int64_values[1]").unwrap()),
        "signed"
    );
    assert_eq!(
        text_of(extract_field_value(&schema, &message, "uint64_values[1]").unwrap()),
        "unsigned"
    );
    assert_eq!(
        text_of(extract_field_value(&schema, &message, "string_values[\"1\"]").unwrap()),
        "string"
    );
}

#[test]
fn test_extract_map_key_rejects_invalid_declared_type() {
    let schema = map_test_schema();
    let message = map_test_message();
    let err = extract_field_value(&schema, &message, "uint64_values[-1]").unwrap_err();
    assert!(matches!(err, ProtoDuckError::InvalidFieldPath(_)));
}

#[test]
fn dotted_path_reads_each_name_as_a_field() {
    let parts = parse_field_path("user.address.street").unwrap();
    assert_eq!(
        parts,
        vec![
            PathPart::Field("user".to_string()),
            PathPart::Field("address".to_string()),
            PathPart::Field("street".to_string()),
        ]
    );
    let parts = parse_field_path("orders[0].items[1].product.name").unwrap();
    assert_eq!(
        parts,
        vec![
            PathPart::Field("orders".to_string()),
            PathPart::Index(0),
            PathPart::Field("items".to_string()),
            PathPart::Index(1),
            PathPart::Field("product".to_string()),
            PathPart::Field("name".to_string()),
        ]
    );
}

#[test]
fn quoted_map_key_path_reads_key_and_value() {
    let parts = parse_field_path("props[\"a.b[c\"]").unwrap();
    assert_eq!(
        parts,
        vec![PathPart::Field("props".to_string()), PathPart::MapKey("a.b[c".to_string())]
    );
    let parts = parse_field_path("props[key]..x").unwrap();
    assert_eq!(
        parts,
        vec![
            PathPart::Field("props".to_string()),
            PathPart::MapKey("key".to_string()),
            PathPart::Field("x".to_string()),
        ]
    );
}

#[test]
fn dotted_text_skips_empty_pieces() {
    assert_eq!(
        parse_field_path("..a..b.").unwrap(),
        vec![PathPart::Field("a".to_string()), PathPart::Field("b".to_string())]
    );
    assert_eq!(
        parse_field_path("...").unwrap_err(),
        ProtoDuckError::InvalidFieldPath("Empty field path".to_string())
    );
}

#[test]
fn joined_paths_read_as_both_parts() {
    let a = parse_field_path("user.address").unwrap();
    let b = parse_field_path("lines[2].text").unwrap();
    let mut both = a.clone();
    both.extend(b);
    assert_eq!(parse_field_path("user.address.lines[2].text").unwrap(), both);
}

