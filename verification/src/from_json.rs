//! JSON to protobuf: a JSON object becomes the fields of a message of a
//! given type, following the same conventions as the JSON that
//! `message_to_json` writes. Unknown fields and values of the wrong type are
//! rejected.

use vstd::prelude::*;

use crate::error::{ErrorV, ProtoDuckError};
use crate::external::{base64_decode, base64_decode_spec, parse_rfc3339, rfc3339_parse_spec};
use crate::extract::{map_find, map_index};
use crate::json::{json_entries_view, json_seq_view, JsonNumber, JsonV, JsonValue};
use crate::numeric::{chars_of, parse_bool, parse_bool_spec, parse_int_spec, parse_signed, parse_unsigned};
use crate::schema::{
    field_index_spec, get_field_by_name, get_message_descriptor, get_message_descriptor_spec,
    lemma_field_index, FieldDescriptor, Kind, Schema,
};
use crate::text::{cat3, owned};
use crate::to_json::timestamp_full_name;
use crate::value::{
    map_entries_view, value_seq_view, DynamicMessage, FloatRepr, FloatReprV, MapKey, MapKeyV,
    MessageV, Value, ValueV,
};

verus! {

/// The name of a JSON value's type.
pub open spec fn json_type_spec(j: JsonV) -> Seq<char> {
    match j {
        JsonV::Null => "null"@,
        JsonV::Bool(_) => "boolean"@,
        JsonV::Number(_) => "number"@,
        JsonV::Str(_) => "string"@,
        JsonV::Array(_) => "array"@,
        JsonV::Object(_) => "object"@,
    }
}

/// The field, what it expected, and the JSON type given.
pub open spec fn invalid_value_spec(f: FieldDescriptor, expected: Seq<char>, j: JsonV) -> ErrorV {
    ErrorV::InvalidFieldValue { field: f.name@, expected, actual: json_type_spec(j) }
}

/// The error for an object key that is no key of the map's key type.
pub open spec fn invalid_map_key_spec(f: FieldDescriptor, key: Seq<char>) -> ErrorV {
    ErrorV::InvalidFieldValue { field: f.name@, expected: "valid protobuf map key"@, actual: key }
}

/// serde_json's `Number::as_i64`.
pub open spec fn as_i64_spec(n: JsonNumber) -> Option<i64> {
    match n {
        JsonNumber::PosInt(u) => if u <= i64::MAX {
            Some(u as i64)
        } else {
            None
        },
        JsonNumber::NegInt(i) => Some(i),
        JsonNumber::Float { .. } => None,
    }
}

/// serde_json's `Number::as_u64`.
pub open spec fn as_u64_spec(n: JsonNumber) -> Option<u64> {
    match n {
        JsonNumber::PosInt(u) => Some(u),
        _ => None,
    }
}

/// A number that fits `i64`, or a string that parses as one.
pub open spec fn json_i64_spec(j: JsonV, f: FieldDescriptor) -> Result<i64, ErrorV> {
    let bad = invalid_value_spec(f, "integer or integer string"@, j);
    match j {
        JsonV::Number(n) => match as_i64_spec(n) {
            Some(v) => Ok(v),
            None => Err(bad),
        },
        JsonV::Str(t) => match parse_int_spec(t, i64::MIN as int, i64::MAX as int) {
            Some(v) => Ok(v as i64),
            None => Err(bad),
        },
        _ => Err(bad),
    }
}

/// A number that fits `u64`, or a string that parses as one.
pub open spec fn json_u64_spec(j: JsonV, f: FieldDescriptor) -> Result<u64, ErrorV> {
    let bad = invalid_value_spec(f, "unsigned integer or integer string"@, j);
    match j {
        JsonV::Number(n) => match as_u64_spec(n) {
            Some(v) => Ok(v),
            None => Err(bad),
        },
        JsonV::Str(t) => match parse_int_spec(t, 0, u64::MAX as int) {
            Some(v) => Ok(v as u64),
            None => Err(bad),
        },
        _ => Err(bad),
    }
}

/// Any JSON number.
pub open spec fn json_f64_spec(j: JsonV, f: FieldDescriptor) -> Result<JsonNumber, ErrorV> {
    match j {
        JsonV::Number(n) => Ok(n),
        _ => Err(invalid_value_spec(f, "number"@, j)),
    }
}

/// The number is finite as an `f64`. An `f64` is finite unless all bits
/// of its exponent are set.
pub open spec fn finite_f64_spec(n: JsonNumber) -> bool {
    match n {
        JsonNumber::Float { bits, .. } => (bits / 0x10_0000_0000_0000) % 0x800 != 0x7ff,
        _ => true,
    }
}

/// The number stays finite when narrowed to `f32`.
pub open spec fn finite_f32_spec(n: JsonNumber) -> bool {
    match n {
        JsonNumber::Float { fits_f32, .. } => fits_f32,
        _ => true,
    }
}

/// `EnumDescriptor::get_value_by_name`, read as the value's number.
pub open spec fn enum_number_spec(values: Seq<crate::schema::EnumValueDescriptor>, name: Seq<char>) -> Option<i32>
    decreases values.len(),
{
    if values.len() == 0 {
        None
    } else if values[0].name@ == name {
        Some(values[0].number)
    } else {
        enum_number_spec(values.drop_first(), name)
    }
}

/// A JSON object key read as the map's key type.
pub open spec fn json_map_key_spec(key: Seq<char>, f: FieldDescriptor) -> Result<MapKeyV, ErrorV> {
    let bad = invalid_map_key_spec(f, key);
    match f.kind {
        Kind::Bool => match parse_bool_spec(key) {
            Some(b) => Ok(MapKeyV::Bool(b)),
            None => Err(bad),
        },
        Kind::Int32 | Kind::Sint32 | Kind::Sfixed32 => match parse_int_spec(
            key,
            i32::MIN as int,
            i32::MAX as int,
        ) {
            Some(v) => Ok(MapKeyV::I32(v as i32)),
            None => Err(bad),
        },
        Kind::Int64 | Kind::Sint64 | Kind::Sfixed64 => match parse_int_spec(
            key,
            i64::MIN as int,
            i64::MAX as int,
        ) {
            Some(v) => Ok(MapKeyV::I64(v as i64)),
            None => Err(bad),
        },
        Kind::Uint32 | Kind::Fixed32 => match parse_int_spec(key, 0, u32::MAX as int) {
            Some(v) => Ok(MapKeyV::U32(v as u32)),
            None => Err(bad),
        },
        Kind::Uint64 | Kind::Fixed64 => match parse_int_spec(key, 0, u64::MAX as int) {
            Some(v) => Ok(MapKeyV::U64(v as u64)),
            None => Err(bad),
        },
        Kind::String => Ok(MapKeyV::Str(key)),
        _ => Err(bad),
    }
}

/// `HashMap::insert`: the key's entry holds the value afterwards.
pub open spec fn map_insert_spec(e: Seq<(MapKeyV, ValueV)>, k: MapKeyV, v: ValueV) -> Seq<
    (MapKeyV, ValueV),
> {
    match map_index(e, k) {
        Some(j) => e.update(j, (k, v)),
        None => e.push((k, v)),
    }
}

/// RFC 3339 text as a Timestamp message of type `md`: its `seconds` set,
/// then its `nanos`.
pub open spec fn json_timestamp_spec(s: Schema, j: JsonV, f: FieldDescriptor, md: nat) -> Result<
    ValueV,
    ErrorV,
> {
    let bad_text = invalid_value_spec(f, "RFC3339 timestamp string"@, j);
    let bad_desc = invalid_value_spec(f, "valid google.protobuf.Timestamp"@, j);
    let fields = s.messages@[md as int].fields@;
    match j {
        JsonV::Str(t) => match rfc3339_parse_spec(t) {
            None => Err(bad_text),
            Some((secs, nanos)) => match field_index_spec(fields, "seconds"@) {
                None => Err(bad_desc),
                Some(si) => match field_index_spec(fields, "nanos"@) {
                    None => Err(bad_desc),
                    Some(ni) => Ok(
                        ValueV::Message(
                            MessageV {
                                descriptor: md,
                                fields: drop_conflicts(seq![(si, ValueV::I64(secs))], fields, ni).push(
                                    (ni, ValueV::I32(nanos as i32)),
                                ),
                            },
                        ),
                    ),
                },
            },
        },
        _ => Err(bad_text),
    }
}

/// One JSON value as a value of type `kind`
/// for field `f`.
pub open spec fn scalar_spec(s: Schema, j: JsonV, f: FieldDescriptor, kind: Kind) -> Result<
    ValueV,
    ErrorV,
>
    decreases j, 0nat,
{
    match kind {
        Kind::Bool => match j {
            JsonV::Bool(b) => Ok(ValueV::Bool(b)),
            _ => Err(invalid_value_spec(f, "boolean"@, j)),
        },
        Kind::String => match j {
            JsonV::Str(t) => Ok(ValueV::Str(t)),
            _ => Err(invalid_value_spec(f, "string"@, j)),
        },
        Kind::Bytes => match j {
            JsonV::Str(t) => match base64_decode_spec(t) {
                Ok(b) => Ok(ValueV::Bytes(b)),
                Err(msg) => Err(
                    ErrorV::InvalidFieldValue {
                        field: f.name@,
                        expected: "valid base64 string"@,
                        actual: msg,
                    },
                ),
            },
            _ => Err(invalid_value_spec(f, "base64 string"@, j)),
        },
        Kind::Int32 | Kind::Sint32 | Kind::Sfixed32 => match json_i64_spec(j, f) {
            Err(e) => Err(e),
            Ok(v) => if i32::MIN <= v && v <= i32::MAX {
                Ok(ValueV::I32(v as i32))
            } else {
                Err(invalid_value_spec(f, "int32"@, j))
            },
        },
        Kind::Int64 | Kind::Sint64 | Kind::Sfixed64 => match json_i64_spec(j, f) {
            Err(e) => Err(e),
            Ok(v) => Ok(ValueV::I64(v)),
        },
        Kind::Uint32 | Kind::Fixed32 => match json_u64_spec(j, f) {
            Err(e) => Err(e),
            Ok(v) => if v <= u32::MAX {
                Ok(ValueV::U32(v as u32))
            } else {
                Err(invalid_value_spec(f, "uint32"@, j))
            },
        },
        Kind::Uint64 | Kind::Fixed64 => match json_u64_spec(j, f) {
            Err(e) => Err(e),
            Ok(v) => Ok(ValueV::U64(v)),
        },
        Kind::Float => match json_f64_spec(j, f) {
            Err(e) => Err(e),
            Ok(n) => if finite_f32_spec(n) {
                Ok(ValueV::F32(FloatReprV::FromJson(n)))
            } else {
                Err(invalid_value_spec(f, "finite float"@, j))
            },
        },
        Kind::Double => match json_f64_spec(j, f) {
            Err(e) => Err(e),
            Ok(n) => if finite_f64_spec(n) {
                Ok(ValueV::F64(FloatReprV::FromJson(n)))
            } else {
                Err(invalid_value_spec(f, "finite double"@, j))
            },
        },
        Kind::Enum(e) => match j {
            JsonV::Str(name) => match enum_number_spec(s.enums@[e as int].values@, name) {
                Some(n) => Ok(ValueV::EnumNumber(n)),
                None => Err(
                    ErrorV::InvalidFieldValue {
                        field: f.name@,
                        expected: "enum "@ + s.enums@[e as int].full_name@ + " name"@,
                        actual: name,
                    },
                ),
            },
            JsonV::Number(_) => match json_i64_spec(j, f) {
                Err(err) => Err(err),
                Ok(v) => if i32::MIN <= v && v <= i32::MAX {
                    Ok(ValueV::EnumNumber(v as i32))
                } else {
                    Err(invalid_value_spec(f, "enum number"@, j))
                },
            },
            _ => Err(invalid_value_spec(f, "enum name or number"@, j)),
        },
        Kind::Message(md) => if s.messages@[md as int].full_name@ == timestamp_full_name() {
            json_timestamp_spec(s, j, f, md as nat)
        } else {
            match j {
                JsonV::Object(entries) => match message_entries_spec(s, md as nat, entries) {
                    Ok(fields) => Ok(ValueV::Message(MessageV { descriptor: md as nat, fields })),
                    Err(e) => Err(e),
                },
                _ => Err(invalid_value_spec(f, "object"@, j)),
            }
        },
    }
}

/// Whether setting field `fi` of a message type with fields `fs` clears
/// field `a`: the field itself, and the other fields of its oneof.
pub open spec fn conflicts(fs: Seq<FieldDescriptor>, a: nat, fi: nat) -> bool {
    ||| a == fi
    ||| (fs[fi as int].oneof is Some && a < fs.len() && fs[a as int].oneof == fs[fi as int].oneof)
}

/// The set fields that remain once field `fi` is set anew.
pub open spec fn drop_conflicts(fields: Seq<(nat, ValueV)>, fs: Seq<FieldDescriptor>, fi: nat) -> Seq<
    (nat, ValueV),
>
    decreases fields.len(),
{
    if fields.len() == 0 {
        Seq::empty()
    } else {
        let p = drop_conflicts(fields.drop_last(), fs, fi);
        if conflicts(fs, fields.last().0, fi) {
            p
        } else {
            p.push(fields.last())
        }
    }
}

/// The fields set from the entries of a JSON object, in the order of the
/// entries, each by its index in message type `md`. Each entry is set as
/// prost-reflect's `set_field` sets it: it replaces an earlier value of the
/// same field and clears the other fields of its oneof.
pub open spec fn message_entries_spec(s: Schema, md: nat, e: Seq<(Seq<char>, JsonV)>) -> Result<
    Seq<(nat, ValueV)>,
    ErrorV,
>
    decreases e, 0nat,
{
    if e.len() == 0 {
        Ok(Seq::empty())
    } else {
        match message_entries_spec(s, md, e.drop_last()) {
            Err(err) => Err(err),
            Ok(p) => {
                let desc = s.messages@[md as int];
                match field_index_spec(desc.fields@, e.last().0) {
                    None => Err(ErrorV::FieldNotFound(e.last().0, desc.full_name@)),
                    Some(fi) => match field_value_spec(s, e.last().1, desc.fields@[fi as int]) {
                        Err(err) => Err(err),
                        Ok(v) => Ok(drop_conflicts(p, desc.fields@, fi).push((fi, v))),
                    },
                }
            },
        }
    }
}

/// A JSON value as the value of field `f`,
/// lists from arrays and maps from objects.
pub open spec fn field_value_spec(s: Schema, j: JsonV, f: FieldDescriptor) -> Result<ValueV, ErrorV>
    decreases j, 1nat,
{
    if f.is_list {
        match j {
            JsonV::Array(items) => match list_items_spec(s, items, f) {
                Ok(vs) => Ok(ValueV::List(vs)),
                Err(e) => Err(e),
            },
            _ => Err(invalid_value_spec(f, "array"@, j)),
        }
    } else if f.is_map {
        match j {
            JsonV::Object(entries) => match f.kind {
                Kind::Message(entry) => match map_items_spec(
                    s,
                    entries,
                    s.messages@[entry as int].fields@[0],
                    s.messages@[entry as int].fields@[1],
                ) {
                    Ok(m) => Ok(ValueV::MapOf(m)),
                    Err(e) => Err(e),
                },
                _ => Err(invalid_value_spec(f, "object"@, j)),
            },
            _ => Err(invalid_value_spec(f, "object"@, j)),
        }
    } else {
        scalar_spec(s, j, f, f.kind)
    }
}

pub open spec fn list_items_spec(s: Schema, items: Seq<JsonV>, f: FieldDescriptor) -> Result<
    Seq<ValueV>,
    ErrorV,
>
    decreases items, 0nat,
{
    if items.len() == 0 {
        Ok(Seq::empty())
    } else {
        match list_items_spec(s, items.drop_last(), f) {
            Err(e) => Err(e),
            Ok(p) => match scalar_spec(s, items.last(), f, f.kind) {
                Err(e) => Err(e),
                Ok(v) => Ok(p.push(v)),
            },
        }
    }
}

/// The entries of a map from a JSON object, in the order of insertion.
pub open spec fn map_items_spec(
    s: Schema,
    e: Seq<(Seq<char>, JsonV)>,
    key_field: FieldDescriptor,
    value_field: FieldDescriptor,
) -> Result<Seq<(MapKeyV, ValueV)>, ErrorV>
    decreases e, 0nat,
{
    if e.len() == 0 {
        Ok(Seq::empty())
    } else {
        match map_items_spec(s, e.drop_last(), key_field, value_field) {
            Err(err) => Err(err),
            Ok(p) => match json_map_key_spec(e.last().0, key_field) {
                Err(err) => Err(err),
                Ok(k) => match scalar_spec(s, e.last().1, value_field, value_field.kind) {
                    Err(err) => Err(err),
                    Ok(v) => Ok(map_insert_spec(p, k, v)),
                },
            },
        }
    }
}

/// A JSON object as a message of type `md`.
pub open spec fn json_to_message_spec(s: Schema, md: nat, j: JsonV, message_type: Seq<char>) -> Result<
    MessageV,
    ErrorV,
> {
    match j {
        JsonV::Object(entries) => match message_entries_spec(s, md, entries) {
            Ok(fields) => Ok(MessageV { descriptor: md, fields }),
            Err(e) => Err(e),
        },
        _ => Err(
            ErrorV::InvalidFieldValue {
                field: "<message>"@,
                expected: "JSON object for "@ + message_type,
                actual: json_type_spec(j),
            },
        ),
    }
}

} // verus!

verus! {

pub open spec fn value_result_view(r: Result<Value, ProtoDuckError>) -> Result<ValueV, ErrorV> {
    match r {
        Ok(v) => Ok(v@),
        Err(e) => Err(e@),
    }
}

/// The name of a JSON value's type.
pub fn json_type(j: &JsonValue) -> (r: &'static str)
    ensures
        r@ == json_type_spec(j@),
{
    match j {
        JsonValue::Null => "null",
        JsonValue::Bool(_) => "boolean",
        JsonValue::Number(_) => "number",
        JsonValue::String(_) => "string",
        JsonValue::Array(_) => "array",
        JsonValue::Object(_) => "object",
    }
}

/// The error for a JSON value of the wrong type for field `f`.
pub fn invalid_value(f: &FieldDescriptor, expected: &str, j: &JsonValue) -> (e: ProtoDuckError)
    ensures
        e@ == invalid_value_spec(*f, expected@, j@),
{
    ProtoDuckError::InvalidFieldValue {
        field: f.name.clone(),
        expected: owned(expected),
        actual: owned(json_type(j)),
    }
}

/// The error for an object key that is no key of the map's key type.
pub fn invalid_map_key(f: &FieldDescriptor, key: &str) -> (e: ProtoDuckError)
    ensures
        e@ == invalid_map_key_spec(*f, key@),
{
    ProtoDuckError::InvalidFieldValue {
        field: f.name.clone(),
        expected: owned("valid protobuf map key"),
        actual: owned(key),
    }
}

pub fn as_i64(n: JsonNumber) -> (r: Option<i64>)
    ensures
        r == as_i64_spec(n),
{
    match n {
        JsonNumber::PosInt(u) => if u <= i64::MAX as u64 {
            Some(u as i64)
        } else {
            None
        },
        JsonNumber::NegInt(i) => Some(i),
        JsonNumber::Float { .. } => None,
    }
}

/// A JSON number that fits `i64`, or a string that parses as one.
pub fn json_i64(j: &JsonValue, f: &FieldDescriptor) -> (r: Result<i64, ProtoDuckError>)
    ensures
        match r {
            Ok(v) => json_i64_spec(j@, *f) == Ok::<i64, ErrorV>(v),
            Err(e) => json_i64_spec(j@, *f) == Err::<i64, ErrorV>(e@),
        },
{
    if let JsonValue::Number(n) = j {
        if let Some(v) = as_i64(*n) {
            return Ok(v);
        }
    }
    match j {
        JsonValue::String(t) => {
            let cs = chars_of(t.as_str());
            match parse_signed(&cs, i64::MIN, i64::MAX) {
                Some(v) => Ok(v),
                None => Err(invalid_value(f, "integer or integer string", j)),
            }
        },
        _ => Err(invalid_value(f, "integer or integer string", j)),
    }
}

/// A JSON number that fits `u64`, or a string that parses as one.
pub fn json_u64(j: &JsonValue, f: &FieldDescriptor) -> (r: Result<u64, ProtoDuckError>)
    ensures
        match r {
            Ok(v) => json_u64_spec(j@, *f) == Ok::<u64, ErrorV>(v),
            Err(e) => json_u64_spec(j@, *f) == Err::<u64, ErrorV>(e@),
        },
{
    if let JsonValue::Number(JsonNumber::PosInt(u)) = j {
        return Ok(*u);
    }
    match j {
        JsonValue::String(t) => {
            let cs = chars_of(t.as_str());
            match parse_unsigned(&cs, u64::MAX) {
                Some(v) => Ok(v),
                None => Err(invalid_value(f, "unsigned integer or integer string", j)),
            }
        },
        _ => Err(invalid_value(f, "unsigned integer or integer string", j)),
    }
}

/// Any JSON number.
pub fn json_f64(j: &JsonValue, f: &FieldDescriptor) -> (r: Result<JsonNumber, ProtoDuckError>)
    ensures
        match r {
            Ok(n) => json_f64_spec(j@, *f) == Ok::<JsonNumber, ErrorV>(n),
            Err(e) => json_f64_spec(j@, *f) == Err::<JsonNumber, ErrorV>(e@),
        },
{
    match j {
        JsonValue::Number(n) => Ok(*n),
        _ => Err(invalid_value(f, "number", j)),
    }
}

fn finite_f64(n: JsonNumber) -> (r: bool)
    ensures
        r == finite_f64_spec(n),
{
    match n {
        JsonNumber::Float { bits, .. } => {
            let e = (bits >> 52u64) & 0x7ffu64;
            assert(e == (bits / 0x10_0000_0000_0000) % 0x800) by (bit_vector)
                requires
                    e == (bits >> 52u64) & 0x7ffu64,
            ;
            e != 0x7ff
        },
        _ => true,
    }
}

fn finite_f32(n: JsonNumber) -> (r: bool)
    ensures
        r == finite_f32_spec(n),
{
    match n {
        JsonNumber::Float { fits_f32, .. } => fits_f32,
        _ => true,
    }
}

/// `EnumDescriptor::get_value_by_name`, read as the value's number.
pub fn enum_number(values: &Vec<crate::schema::EnumValueDescriptor>, name: &str) -> (r: Option<i32>)
    ensures
        r == enum_number_spec(values@, name@),
{
    let mut i: usize = 0;
    assert(values@.subrange(0, values@.len() as int) =~= values@);
    while i < values.len()
        invariant
            i <= values@.len(),
            enum_number_spec(values@.subrange(i as int, values@.len() as int), name@)
                == enum_number_spec(values@, name@),
        decreases values@.len() - i,
    {
        let ghost rest = values@.subrange(i as int, values@.len() as int);
        assert(rest.drop_first() =~= values@.subrange(i + 1, values@.len() as int));
        if crate::schema::str_eq(&values[i].name, name) {
            return Some(values[i].number);
        }
        i = i + 1;
    }
    None
}

/// A JSON object key read as a key of the map's key type.
pub fn json_string_to_map_key(key: &str, f: &FieldDescriptor) -> (r: Result<MapKey, ProtoDuckError>)
    ensures
        match r {
            Ok(k) => json_map_key_spec(key@, *f) == Ok::<MapKeyV, ErrorV>(k@),
            Err(e) => json_map_key_spec(key@, *f) == Err::<MapKeyV, ErrorV>(e@),
        },
{
    let cs = chars_of(key);
    match f.kind {
        Kind::Bool => match parse_bool(&cs) {
            Some(b) => Ok(MapKey::Bool(b)),
            None => Err(invalid_map_key(f, key)),
        },
        Kind::Int32 | Kind::Sint32 | Kind::Sfixed32 => match parse_signed(
            &cs,
            i32::MIN as i64,
            i32::MAX as i64,
        ) {
            Some(v) => Ok(MapKey::I32(v as i32)),
            None => Err(invalid_map_key(f, key)),
        },
        Kind::Int64 | Kind::Sint64 | Kind::Sfixed64 => match parse_signed(&cs, i64::MIN, i64::MAX) {
            Some(v) => Ok(MapKey::I64(v)),
            None => Err(invalid_map_key(f, key)),
        },
        Kind::Uint32 | Kind::Fixed32 => match parse_unsigned(&cs, u32::MAX as u64) {
            Some(v) => Ok(MapKey::U32(v as u32)),
            None => Err(invalid_map_key(f, key)),
        },
        Kind::Uint64 | Kind::Fixed64 => match parse_unsigned(&cs, u64::MAX) {
            Some(v) => Ok(MapKey::U64(v)),
            None => Err(invalid_map_key(f, key)),
        },
        Kind::String => Ok(MapKey::String(owned(key))),
        _ => Err(invalid_map_key(f, key)),
    }
}

/// RFC 3339 text as a Timestamp message of type `md`: its `seconds` set,
/// then its `nanos`.
pub fn json_timestamp_to_value(s: &Schema, j: &JsonValue, f: &FieldDescriptor, md: usize) -> (r:
    Result<Value, ProtoDuckError>)
    requires
        md < s.messages@.len(),
    ensures
        value_result_view(r) == json_timestamp_spec(*s, j@, *f, md as nat),
{
    let text = match j {
        JsonValue::String(t) => t,
        _ => {
            return Err(invalid_value(f, "RFC3339 timestamp string", j));
        },
    };
    let (secs, nanos) = match parse_rfc3339(text.as_str()) {
        Some(p) => p,
        None => {
            return Err(invalid_value(f, "RFC3339 timestamp string", j));
        },
    };
    let desc = &s.messages[md];
    let si = match get_field_by_name(desc, "seconds") {
        Some(i) => i,
        None => {
            return Err(invalid_value(f, "valid google.protobuf.Timestamp", j));
        },
    };
    let ni = match get_field_by_name(desc, "nanos") {
        Some(i) => i,
        None => {
            return Err(invalid_value(f, "valid google.protobuf.Timestamp", j));
        },
    };
    proof {
        lemma_field_index(desc.fields@, "nanos"@);
    }
    let mut first: Vec<(usize, Value)> = Vec::new();
    first.push((si, Value::I64(secs)));
    assert(crate::value::field_entries_view(first@) =~= seq![(si as nat, ValueV::I64(secs))]) by {
        crate::value::lemma_field_entries_view(first@);
    }
    let mut fields = without_conflicts(&first, &desc.fields, ni);
    let ghost before = fields@;
    let ghost nv = Value::I32(nanos as i32);
    fields.push((ni, Value::I32(nanos as i32)));
    assert(fields@.drop_last() =~= before);
    assert(fields@.last() == (ni, nv));
    assert(crate::value::value_view(nv) == ValueV::I32(nanos as i32));
    assert(crate::value::field_entries_view(fields@) == crate::value::field_entries_view(before).push(
        (ni as nat, ValueV::I32(nanos as i32)),
    ));
    let m = DynamicMessage { descriptor: md, fields };
    Ok(Value::Message(m))
}

} // verus!

verus! {

/// `HashMap::insert` on the entries of a map value.
pub fn map_insert(m: &mut Vec<(MapKey, Value)>, k: MapKey, v: Value)
    ensures
        map_entries_view(final(m)@) == map_insert_spec(map_entries_view(old(m)@), k@, v@),
{
    proof {
        crate::value::lemma_map_entries_view(m@);
        crate::extract::lemma_map_index(map_entries_view(m@), k@);
    }
    match map_find(m, &k) {
        Some(j) => {
            let ghost before = m@;
            let ghost kv = k@;
            let ghost vv = v@;
            m.set(j, (k, v));
            proof {
                crate::value::lemma_map_entries_view(m@);
                crate::value::lemma_map_entries_view(before);
                assert(map_entries_view(m@)[j as int] == (kv, vv));
                assert(map_entries_view(m@) =~= map_entries_view(before).update(j as int, (kv, vv)));
            }
        },
        None => {
            let ghost before = m@;
            m.push((k, v));
            assert(m@.drop_last() =~= before);
        },
    }
}

pub open spec fn fields_result_view(r: Result<Vec<(usize, Value)>, ProtoDuckError>) -> Result<
    Seq<(nat, ValueV)>,
    ErrorV,
> {
    match r {
        Ok(f) => Ok(crate::value::field_entries_view(f@)),
        Err(e) => Err(e@),
    }
}

pub proof fn lemma_entries_err(s: Schema, md: nat, e: Seq<(Seq<char>, JsonV)>, j: int)
    requires
        0 <= j <= e.len(),
        message_entries_spec(s, md, e.subrange(0, j)) is Err,
    ensures
        message_entries_spec(s, md, e) == message_entries_spec(s, md, e.subrange(0, j)),
    decreases e.len(),
{
    if j == e.len() {
        assert(e.subrange(0, j) =~= e);
    } else {
        assert(e.drop_last().subrange(0, j) =~= e.subrange(0, j));
        lemma_entries_err(s, md, e.drop_last(), j);
    }
}

pub proof fn lemma_list_items_err(s: Schema, items: Seq<JsonV>, f: FieldDescriptor, j: int)
    requires
        0 <= j <= items.len(),
        list_items_spec(s, items.subrange(0, j), f) is Err,
    ensures
        list_items_spec(s, items, f) == list_items_spec(s, items.subrange(0, j), f),
    decreases items.len(),
{
    if j == items.len() {
        assert(items.subrange(0, j) =~= items);
    } else {
        assert(items.drop_last().subrange(0, j) =~= items.subrange(0, j));
        lemma_list_items_err(s, items.drop_last(), f, j);
    }
}

pub proof fn lemma_map_items_err(
    s: Schema,
    e: Seq<(Seq<char>, JsonV)>,
    kf: FieldDescriptor,
    vf: FieldDescriptor,
    j: int,
)
    requires
        0 <= j <= e.len(),
        map_items_spec(s, e.subrange(0, j), kf, vf) is Err,
    ensures
        map_items_spec(s, e, kf, vf) == map_items_spec(s, e.subrange(0, j), kf, vf),
    decreases e.len(),
{
    if j == e.len() {
        assert(e.subrange(0, j) =~= e);
    } else {
        assert(e.drop_last().subrange(0, j) =~= e.subrange(0, j));
        lemma_map_items_err(s, e.drop_last(), kf, vf, j);
    }
}

/// The entries of `fields` that setting field `fi` keeps.
fn without_conflicts(fields: &Vec<(usize, Value)>, fs: &Vec<FieldDescriptor>, fi: usize) -> (r: Vec<
    (usize, Value),
>)
    requires
        fi < fs@.len(),
    ensures
        crate::value::field_entries_view(r@) == drop_conflicts(
            crate::value::field_entries_view(fields@),
            fs@,
            fi as nat,
        ),
{
    let mut r: Vec<(usize, Value)> = Vec::new();
    let mut i: usize = 0;
    let ghost fv = crate::value::field_entries_view(fields@);
    proof {
        crate::value::lemma_field_entries_view(fields@);
    }
    while i < fields.len()
        invariant
            i <= fields@.len(),
            fi < fs@.len(),
            fv == crate::value::field_entries_view(fields@),
            fv.len() == fields@.len(),
            forall|k: int|
                0 <= k < fields@.len() ==> (#[trigger] fv[k]) == (
                    fields@[k].0 as nat,
                    crate::value::value_view(fields@[k].1),
                ),
            crate::value::field_entries_view(r@) == drop_conflicts(
                fv.subrange(0, i as int),
                fs@,
                fi as nat,
            ),
        decreases fields@.len() - i,
    {
        let a = fields[i].0;
        let conflict = if a == fi {
            true
        } else {
            match fs[fi].oneof {
                None => false,
                Some(o) => a < fs.len() && match fs[a].oneof {
                    Some(o2) => o2 == o,
                    None => false,
                },
            }
        };
        assert(fv.subrange(0, i + 1).drop_last() =~= fv.subrange(0, i as int));
        assert(fv.subrange(0, i + 1).last() == fv[i as int]);
        if !conflict {
            let c = crate::value::clone_value(&fields[i].1);
            let ghost before = r@;
            r.push((a, c));
            assert(r@.drop_last() =~= before);
        }
        i = i + 1;
    }
    assert(fv.subrange(0, fv.len() as int) =~= fv);
    r
}

/// The fields set from the entries of a JSON object, for message type `md`.
#[verifier::loop_isolation(false)]
pub fn json_object_to_fields(s: &Schema, md: usize, entries: &Vec<(String, JsonValue)>) -> (r:
    Result<Vec<(usize, Value)>, ProtoDuckError>)
    requires
        s.wf(),
        md < s.messages@.len(),
    ensures
        fields_result_view(r) == message_entries_spec(*s, md as nat, json_entries_view(entries@)),
    decreases entries, 0nat,
{
    let ghost ev = json_entries_view(entries@);
    proof {
        crate::json::lemma_json_entries_view(entries@);
    }
    let desc = &s.messages[md];
    let mut out: Vec<(usize, Value)> = Vec::new();
    let mut i: usize = 0;
    assert(ev.subrange(0, 0) =~= Seq::<(Seq<char>, JsonV)>::empty());
    while i < entries.len()
        invariant
            i <= entries@.len(),
            message_entries_spec(*s, md as nat, ev.subrange(0, i as int)) == Ok::<
                Seq<(nat, ValueV)>,
                ErrorV,
            >(crate::value::field_entries_view(out@)),
        decreases entries@.len() - i,
    {
        assert(ev.subrange(0, i + 1).drop_last() =~= ev.subrange(0, i as int));
        let name = &entries[i].0;
        proof {
            lemma_field_index(desc.fields@, name@);
        }
        let fi = match get_field_by_name(desc, name.as_str()) {
            Some(fi) => fi,
            None => {
                proof {
                    lemma_entries_err(*s, md as nat, ev, i + 1);
                }
                return Err(ProtoDuckError::FieldNotFound(name.clone(), desc.full_name.clone()));
            },
        };
        assert(s.message_wf(s.messages@[md as int]));
        assert(s.field_wf(desc.fields@[fi as int]));
        assert(decreases_to!(*entries => entries@[i as int]));
        assert(decreases_to!(entries@[i as int] => entries@[i as int].1));
        let v = match json_value_to_field_value(s, &entries[i].1, &desc.fields[fi]) {
            Ok(v) => v,
            Err(e) => {
                proof {
                    lemma_entries_err(*s, md as nat, ev, i + 1);
                }
                return Err(e);
            },
        };
        out = without_conflicts(&out, &desc.fields, fi);
        let ghost before = out@;
        out.push((fi, v));
        assert(out@.drop_last() =~= before);
        i = i + 1;
    }
    assert(ev.subrange(0, ev.len() as int) =~= ev);
    Ok(out)
}

/// A JSON value as the value of field `f`: a list from an array, a map from an object.
#[verifier::loop_isolation(false)]
pub fn json_value_to_field_value(s: &Schema, j: &JsonValue, f: &FieldDescriptor) -> (r: Result<
    Value,
    ProtoDuckError,
>)
    requires
        s.wf(),
        s.field_wf(*f),
    ensures
        value_result_view(r) == field_value_spec(*s, j@, *f),
    decreases j, 1nat,
{
    if f.is_list {
        let items = match j {
            JsonValue::Array(items) => items,
            _ => {
                return Err(invalid_value(f, "array", j));
            },
        };
        let ghost iv = json_seq_view(items@);
        proof {
            crate::json::lemma_json_seq_view(items@);
        }
        let mut out: Vec<Value> = Vec::new();
        let mut i: usize = 0;
        assert(iv.subrange(0, 0) =~= Seq::<JsonV>::empty());
        while i < items.len()
            invariant
                i <= items@.len(),
                list_items_spec(*s, iv.subrange(0, i as int), *f) == Ok::<Seq<ValueV>, ErrorV>(
                    value_seq_view(out@),
                ),
            decreases items@.len() - i,
        {
            assert(iv.subrange(0, i + 1).drop_last() =~= iv.subrange(0, i as int));
            assert(decreases_to!(*items => items@[i as int]));
            let v = match json_value_to_scalar_value(s, &items[i], f, f.kind) {
                Ok(v) => v,
                Err(e) => {
                    proof {
                        lemma_list_items_err(*s, iv, *f, i + 1);
                    }
                    return Err(e);
                },
            };
            let ghost before = out@;
            out.push(v);
            assert(out@.drop_last() =~= before);
            i = i + 1;
        }
        assert(iv.subrange(0, iv.len() as int) =~= iv);
        return Ok(Value::List(out));
    }
    if f.is_map {
        let entries = match j {
            JsonValue::Object(entries) => entries,
            _ => {
                return Err(invalid_value(f, "object", j));
            },
        };
        let entry = match f.kind {
            Kind::Message(entry) => entry,
            _ => {
                return Err(invalid_value(f, "object", j));
            },
        };
        assert(s.message_wf(s.messages@[entry as int]));
        let key_field = &s.messages[entry].fields[0];
        let value_field = &s.messages[entry].fields[1];
        assert(s.field_wf(*value_field));
        let ghost ev = json_entries_view(entries@);
        proof {
            crate::json::lemma_json_entries_view(entries@);
        }
        let mut out: Vec<(MapKey, Value)> = Vec::new();
        let mut i: usize = 0;
        assert(ev.subrange(0, 0) =~= Seq::<(Seq<char>, JsonV)>::empty());
        while i < entries.len()
            invariant
                i <= entries@.len(),
                map_items_spec(*s, ev.subrange(0, i as int), *key_field, *value_field) == Ok::<
                    Seq<(MapKeyV, ValueV)>,
                    ErrorV,
                >(map_entries_view(out@)),
            decreases entries@.len() - i,
        {
            assert(ev.subrange(0, i + 1).drop_last() =~= ev.subrange(0, i as int));
            assert(decreases_to!(*entries => entries@[i as int]));
            assert(decreases_to!(entries@[i as int] => entries@[i as int].1));
            let k = match json_string_to_map_key(entries[i].0.as_str(), key_field) {
                Ok(k) => k,
                Err(e) => {
                    proof {
                        lemma_map_items_err(*s, ev, *key_field, *value_field, i + 1);
                    }
                    return Err(e);
                },
            };
            let v = match json_value_to_scalar_value(s, &entries[i].1, value_field, value_field.kind) {
                Ok(v) => v,
                Err(e) => {
                    proof {
                        lemma_map_items_err(*s, ev, *key_field, *value_field, i + 1);
                    }
                    return Err(e);
                },
            };
            map_insert(&mut out, k, v);
            i = i + 1;
        }
        assert(ev.subrange(0, ev.len() as int) =~= ev);
        return Ok(Value::MapOf(out));
    }
    json_value_to_scalar_value(s, j, f, f.kind)
}

/// One JSON value as a value of type `kind` for field `f`.
#[verifier::loop_isolation(false)]
pub fn json_value_to_scalar_value(s: &Schema, j: &JsonValue, f: &FieldDescriptor, kind: Kind) -> (r:
    Result<Value, ProtoDuckError>)
    requires
        s.wf(),
        s.kind_wf(kind),
    ensures
        value_result_view(r) == scalar_spec(*s, j@, *f, kind),
    decreases j, 0nat,
{
    match kind {
        Kind::Bool => match j {
            JsonValue::Bool(b) => Ok(Value::Bool(*b)),
            _ => Err(invalid_value(f, "boolean", j)),
        },
        Kind::String => match j {
            JsonValue::String(t) => Ok(Value::String(t.clone())),
            _ => Err(invalid_value(f, "string", j)),
        },
        Kind::Bytes => match j {
            JsonValue::String(t) => match base64_decode(t.as_str()) {
                Ok(b) => Ok(Value::Bytes(b)),
                Err(msg) => Err(
                    ProtoDuckError::InvalidFieldValue {
                        field: f.name.clone(),
                        expected: owned("valid base64 string"),
                        actual: msg,
                    },
                ),
            },
            _ => Err(invalid_value(f, "base64 string", j)),
        },
        Kind::Int32 | Kind::Sint32 | Kind::Sfixed32 => {
            let v = json_i64(j, f)?;
            if i32::MIN as i64 <= v && v <= i32::MAX as i64 {
                Ok(Value::I32(v as i32))
            } else {
                Err(invalid_value(f, "int32", j))
            }
        },
        Kind::Int64 | Kind::Sint64 | Kind::Sfixed64 => Ok(Value::I64(json_i64(j, f)?)),
        Kind::Uint32 | Kind::Fixed32 => {
            let v = json_u64(j, f)?;
            if v <= u32::MAX as u64 {
                Ok(Value::U32(v as u32))
            } else {
                Err(invalid_value(f, "uint32", j))
            }
        },
        Kind::Uint64 | Kind::Fixed64 => Ok(Value::U64(json_u64(j, f)?)),
        Kind::Float => {
            let n = json_f64(j, f)?;
            if !finite_f32(n) {
                return Err(invalid_value(f, "finite float", j));
            }
            Ok(Value::F32(FloatRepr::FromJson(n)))
        },
        Kind::Double => {
            let n = json_f64(j, f)?;
            if !finite_f64(n) {
                return Err(invalid_value(f, "finite double", j));
            }
            Ok(Value::F64(FloatRepr::FromJson(n)))
        },
        Kind::Enum(e) => match j {
            JsonValue::String(name) => match enum_number(&s.enums[e].values, name.as_str()) {
                Some(n) => Ok(Value::EnumNumber(n)),
                None => Err(
                    ProtoDuckError::InvalidFieldValue {
                        field: f.name.clone(),
                        expected: cat3("enum ", s.enums[e].full_name.as_str(), " name"),
                        actual: name.clone(),
                    },
                ),
            },
            JsonValue::Number(_) => {
                let v = json_i64(j, f)?;
                if i32::MIN as i64 <= v && v <= i32::MAX as i64 {
                    Ok(Value::EnumNumber(v as i32))
                } else {
                    Err(invalid_value(f, "enum number", j))
                }
            },
            _ => Err(invalid_value(f, "enum name or number", j)),
        },
        Kind::Message(md) => {
            if crate::schema::str_eq(&s.messages[md].full_name, "google.protobuf.Timestamp") {
                return json_timestamp_to_value(s, j, f, md);
            }
            match j {
                JsonValue::Object(entries) => {
                    let fields = json_object_to_fields(s, md, entries)?;
                    Ok(Value::Message(DynamicMessage { descriptor: md, fields }))
                },
                _ => Err(invalid_value(f, "object", j)),
            }
        },
    }
}

} // verus!

verus! {

pub open spec fn message_result_view(r: Result<DynamicMessage, ProtoDuckError>) -> Result<
    MessageV,
    ErrorV,
> {
    match r {
        Ok(m) => Ok(m@),
        Err(e) => Err(e@),
    }
}

/// A JSON object as a message of type `md`.
pub fn json_value_to_message(s: &Schema, md: usize, j: &JsonValue, message_type: &str) -> (r:
    Result<DynamicMessage, ProtoDuckError>)
    requires
        s.wf(),
        md < s.messages@.len(),
    ensures
        message_result_view(r) == json_to_message_spec(*s, md as nat, j@, message_type@),
{
    match j {
        JsonValue::Object(entries) => {
            let fields = json_object_to_fields(s, md, entries)?;
            Ok(DynamicMessage { descriptor: md, fields })
        },
        _ => Err(
            ProtoDuckError::InvalidFieldValue {
                field: owned("<message>"),
                expected: crate::text::cat2("JSON object for ", message_type),
                actual: owned(json_type(j)),
            },
        ),
    }
}

/// Every entry that a successful conversion reads names a field of the
/// message type.
pub proof fn lemma_entries_name_fields(s: Schema, md: nat, e: Seq<(Seq<char>, JsonV)>)
    requires
        message_entries_spec(s, md, e) is Ok,
    ensures
        forall|i: int|
            0 <= i < e.len() ==> #[trigger] field_index_spec(
                s.messages@[md as int].fields@,
                e[i].0,
            ) is Some,
    decreases e.len(),
{
    if e.len() > 0 {
        lemma_entries_name_fields(s, md, e.drop_last());
        assert forall|i: int| 0 <= i < e.len() implies #[trigger] field_index_spec(
            s.messages@[md as int].fields@,
            e[i].0,
        ) is Some by {
            if i < e.len() - 1 {
                assert(e.drop_last()[i] == e[i]);
            }
        }
    }
}

/// Every entry of the JSON object names a field of message type `md`, and
/// the message holds no more fields than the object has entries (a later
/// field of a oneof clears an earlier one).
pub open spec fn reads_every_entry(s: Schema, md: nat, j: JsonV, m: MessageV) -> bool {
    &&& j is Object
    &&& forall|i: int|
        0 <= i < j->Object_0.len() ==> #[trigger] field_index_spec(
            s.messages@[md as int].fields@,
            j->Object_0[i].0,
        ) is Some
    &&& m.fields.len() <= j->Object_0.len()
}

pub open spec fn parsed_view(p: Result<JsonValue, String>) -> Result<JsonV, Seq<char>> {
    match p {
        Ok(j) => Ok(j@),
        Err(e) => Err(e@),
    }
}

/// The JSON document as a message of the type registered
/// under `message_type`.
pub open spec fn json_to_proto_spec(
    s: Schema,
    parsed: Result<JsonV, Seq<char>>,
    message_type: Seq<char>,
) -> Result<MessageV, ErrorV> {
    match parsed {
        Err(msg) => Err(ErrorV::JsonDeserializeError("Invalid JSON: "@ + msg)),
        Ok(j) => match get_message_descriptor_spec(s, message_type) {
            Err(e) => Err(e),
            Ok(md) => json_to_message_spec(s, md, j, message_type),
        },
    }
}

/// The message of the type registered under `message_type`
/// that a JSON document describes, as the fields to set, in the order of the
/// document's entries. `parsed` is what serde_json read from the JSON text:
/// the document, or the text of its error. A conversion that succeeds has
/// read every entry of the document into a field of that name: unknown
/// fields are rejected, not dropped.
pub fn json_to_proto(s: &Schema, parsed: &Result<JsonValue, String>, message_type: &str) -> (r:
    Result<DynamicMessage, ProtoDuckError>)
    requires
        s.wf(),
    ensures
        message_result_view(r) == json_to_proto_spec(*s, parsed_view(*parsed), message_type@),
        r matches Ok(m) ==> (m.descriptor < s.messages@.len() && parsed is Ok && reads_every_entry(
            *s,
            m.descriptor as nat,
            parsed->Ok_0@,
            m@,
        )),
{
    let json = match parsed {
        Ok(j) => j,
        Err(msg) => {
            return Err(
                ProtoDuckError::JsonDeserializeError(
                    crate::text::cat2("Invalid JSON: ", msg.as_str()),
                ),
            );
        },
    };
    let md = get_message_descriptor(s, message_type)?;
    let r = json_value_to_message(s, md, json, message_type);
    proof {
        if r is Ok {
            let e = json@->Object_0;
            lemma_entries_name_fields(*s, md as nat, e);
            lemma_entries_len(*s, md as nat, e);
        }
    }
    r
}

pub proof fn lemma_drop_conflicts_len(fields: Seq<(nat, ValueV)>, fs: Seq<FieldDescriptor>, fi: nat)
    ensures
        drop_conflicts(fields, fs, fi).len() <= fields.len(),
    decreases fields.len(),
{
    if fields.len() > 0 {
        lemma_drop_conflicts_len(fields.drop_last(), fs, fi);
    }
}

pub proof fn lemma_entries_len(s: Schema, md: nat, e: Seq<(Seq<char>, JsonV)>)
    ensures
        message_entries_spec(s, md, e) matches Ok(f) ==> f.len() <= e.len(),
    decreases e.len(),
{
    if e.len() > 0 {
        lemma_entries_len(s, md, e.drop_last());
        if let Ok(p) = message_entries_spec(s, md, e.drop_last()) {
            let desc = s.messages@[md as int];
            if let Some(fi) = field_index_spec(desc.fields@, e.last().0) {
                lemma_drop_conflicts_len(p, desc.fields@, fi);
            }
        }
    }
}

} // verus!
