//! Errors of the library.

use vstd::prelude::*;

verus! {

/// Errors that can occur while converting or inspecting protobuf messages.
#[derive(Debug, Clone, PartialEq)]
pub enum ProtoDuckError {
    DecodeError(String),
    MessageTypeNotFound(String),
    FieldNotFound(String, String),
    InvalidFieldPath(String),
    SchemaParseError(String),
    JsonSerializeError(String),
    JsonDeserializeError(String),
    InvalidFieldValue { field: String, expected: String, actual: String },
    IndexOutOfBounds(usize, String, usize),
    NotARepeatedField(String),
    MapKeyNotFound(String, String),
}

/// The mathematical content of an error: its variant and its texts.
pub enum ErrorV {
    DecodeError(Seq<char>),
    MessageTypeNotFound(Seq<char>),
    FieldNotFound(Seq<char>, Seq<char>),
    InvalidFieldPath(Seq<char>),
    SchemaParseError(Seq<char>),
    JsonSerializeError(Seq<char>),
    JsonDeserializeError(Seq<char>),
    InvalidFieldValue { field: Seq<char>, expected: Seq<char>, actual: Seq<char> },
    IndexOutOfBounds(nat, Seq<char>, nat),
    NotARepeatedField(Seq<char>),
    MapKeyNotFound(Seq<char>, Seq<char>),
}

impl View for ProtoDuckError {
    type V = ErrorV;

    open spec fn view(&self) -> ErrorV {
        match self {
            ProtoDuckError::DecodeError(a) => ErrorV::DecodeError(a@),
            ProtoDuckError::MessageTypeNotFound(a) => ErrorV::MessageTypeNotFound(a@),
            ProtoDuckError::FieldNotFound(a, b) => ErrorV::FieldNotFound(a@, b@),
            ProtoDuckError::InvalidFieldPath(a) => ErrorV::InvalidFieldPath(a@),
            ProtoDuckError::SchemaParseError(a) => ErrorV::SchemaParseError(a@),
            ProtoDuckError::JsonSerializeError(a) => ErrorV::JsonSerializeError(a@),
            ProtoDuckError::JsonDeserializeError(a) => ErrorV::JsonDeserializeError(a@),
            ProtoDuckError::InvalidFieldValue { field, expected, actual } => ErrorV::InvalidFieldValue {
                field: field@,
                expected: expected@,
                actual: actual@,
            },
            ProtoDuckError::IndexOutOfBounds(i, p, n) => ErrorV::IndexOutOfBounds(
                *i as nat,
                p@,
                *n as nat,
            ),
            ProtoDuckError::NotARepeatedField(a) => ErrorV::NotARepeatedField(a@),
            ProtoDuckError::MapKeyNotFound(a, b) => ErrorV::MapKeyNotFound(a@, b@),
        }
    }
}

} // verus!

verus! {

/// The text that describes an error.
pub open spec fn error_text(e: ErrorV) -> Seq<char> {
    match e {
        ErrorV::DecodeError(a) => "Failed to decode protobuf message: "@ + a,
        ErrorV::MessageTypeNotFound(a) => "Message type '"@ + a
            + "' not found. Did you load the schema with proto_schema_add()?"@,
        ErrorV::FieldNotFound(a, b) => "Field '"@ + a + "' not found in message type '"@ + b
            + "'"@,
        ErrorV::InvalidFieldPath(a) => "Invalid field path syntax: "@ + a,
        ErrorV::SchemaParseError(a) => "Failed to parse proto schema: "@ + a,
        ErrorV::JsonSerializeError(a) => "Failed to serialize to JSON: "@ + a,
        ErrorV::JsonDeserializeError(a) => "Failed to deserialize JSON: "@ + a,
        ErrorV::InvalidFieldValue { field, expected, actual } => "Invalid value for field '"@
            + field + "': expected "@ + expected + ", got "@ + actual,
        ErrorV::IndexOutOfBounds(i, p, n) => "Index "@ + crate::numeric::int_text(i as int)
            + " out of bounds for repeated field '"@ + p + "' (length: "@
            + crate::numeric::int_text(n as int) + ")"@,
        ErrorV::NotARepeatedField(a) => "Cannot use array index on non-repeated field '"@ + a
            + "'"@,
        ErrorV::MapKeyNotFound(a, b) => "Map key '"@ + a + "' not found in field '"@ + b + "'"@,
    }
}

impl ProtoDuckError {
    /// The text that describes the error (what `to_string` gives).
    pub fn message(&self) -> (s: String)
        ensures
            s@ == error_text(self@),
    {
        let mut s = String::new();
        match self {
            ProtoDuckError::DecodeError(a) => {
                s.append("Failed to decode protobuf message: ");
                s.append(a.as_str());
            },
            ProtoDuckError::MessageTypeNotFound(a) => {
                s.append("Message type '");
                s.append(a.as_str());
                s.append("' not found. Did you load the schema with proto_schema_add()?");
            },
            ProtoDuckError::FieldNotFound(a, b) => {
                s.append("Field '");
                s.append(a.as_str());
                s.append("' not found in message type '");
                s.append(b.as_str());
                s.append("'");
            },
            ProtoDuckError::InvalidFieldPath(a) => {
                s.append("Invalid field path syntax: ");
                s.append(a.as_str());
            },
            ProtoDuckError::SchemaParseError(a) => {
                s.append("Failed to parse proto schema: ");
                s.append(a.as_str());
            },
            ProtoDuckError::JsonSerializeError(a) => {
                s.append("Failed to serialize to JSON: ");
                s.append(a.as_str());
            },
            ProtoDuckError::JsonDeserializeError(a) => {
                s.append("Failed to deserialize JSON: ");
                s.append(a.as_str());
            },
            ProtoDuckError::InvalidFieldValue { field, expected, actual } => {
                s.append("Invalid value for field '");
                s.append(field.as_str());
                s.append("': expected ");
                s.append(expected.as_str());
                s.append(", got ");
                s.append(actual.as_str());
            },
            ProtoDuckError::IndexOutOfBounds(i, p, n) => {
                let it = crate::numeric::format_unsigned(*i as u64);
                let nt = crate::numeric::format_unsigned(*n as u64);
                s.append("Index ");
                s.append(it.as_str());
                s.append(" out of bounds for repeated field '");
                s.append(p.as_str());
                s.append("' (length: ");
                s.append(nt.as_str());
                s.append(")");
            },
            ProtoDuckError::NotARepeatedField(a) => {
                s.append("Cannot use array index on non-repeated field '");
                s.append(a.as_str());
                s.append("'");
            },
            ProtoDuckError::MapKeyNotFound(a, b) => {
                s.append("Map key '");
                s.append(a.as_str());
                s.append("' not found in field '");
                s.append(b.as_str());
                s.append("'");
            },
        }
        assert(s@ =~= error_text(self@));
        s
    }
}

} // verus!
