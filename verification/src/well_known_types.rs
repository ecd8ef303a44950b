//! Well-known type JSON. On the way in, a `google.protobuf.Timestamp` given
//! as canonical RFC 3339 text is checked by prost-reflect's canonical JSON
//! reader before the document is converted. On the way out, a Timestamp
//! given as RFC 3339 text or as the neutral `{seconds, nanos}` object is
//! written as canonical RFC 3339 text.

use prost_reflect::ReflectMessage;
use vstd::prelude::*;

use crate::error::{ErrorV, ProtoDuckError};
use crate::from_json::{
    invalid_value, invalid_value_spec, json_to_message_spec, json_type, json_type_spec,
    json_value_to_message, message_result_view, parsed_view,
};
use crate::json::{json_entries_view, json_seq_view, JsonV, JsonValue};
use crate::schema::{
    field_index_spec, get_field_by_name, get_message_descriptor, get_message_descriptor_spec,
    lemma_field_index, str_eq, FieldDescriptor, Kind, Schema,
};
use crate::external::{format_rfc3339, rfc3339_format_spec};
use crate::from_json::{as_i64, as_i64_spec};
use crate::numeric::{format_signed, int_text};
use crate::text::{cat2, cat3, owned};
use crate::to_json::timestamp_full_name;
use crate::value::MessageV;

verus! {

/// What prost-reflect's canonical JSON reader gives for the JSON string
/// holding `text`, read as a `google.protobuf.Timestamp`: its seconds and
/// nanos, or the text of its error.
pub uninterp spec fn timestamp_json_spec(text: Seq<char>) -> Result<(i64, i32), Seq<char>>;

/// Reads `text` as the canonical JSON of a `google.protobuf.Timestamp`:
/// `DynamicMessage::deserialize` with the Timestamp descriptor on a
/// serde_json deserializer over the JSON string of `text`, then
/// `Deserializer::end`. Claimed: the outcome is a function of the text, the
/// seconds and nanos of the message read, or the `to_string` of the error.
#[verifier::external_body]
fn read_timestamp_json(text: &str) -> (r: Result<(i64, i32), String>)
    ensures
        match r {
            Ok(p) => timestamp_json_spec(text@) == Ok::<(i64, i32), Seq<char>>(p),
            Err(e) => timestamp_json_spec(text@) == Err::<(i64, i32), Seq<char>>(e@),
        },
{
    let json = serde_json::to_string(text).map_err(|e| e.to_string())?;
    let mut de = serde_json::Deserializer::from_str(&json);
    let descriptor = prost_reflect::prost_types::Timestamp::default().descriptor();
    let message = prost_reflect::DynamicMessage::deserialize(descriptor, &mut de).map_err(
        |e| e.to_string(),
    )?;
    de.end().map_err(|e| e.to_string())?;
    let t: prost_reflect::prost_types::Timestamp = message.transcode_to().map_err(|e| e.to_string())?;
    Ok((t.seconds, t.nanos))
}

/// A value of type `kind`, with every Timestamp string in it checked by
/// prost-reflect's canonical reader; the value itself is kept.
pub open spec fn input_scalar_spec(s: Schema, j: JsonV, kind: Kind) -> Result<JsonV, ErrorV>
    decreases j, 1nat,
{
    match kind {
        Kind::Message(md) => if s.messages@[md as int].full_name@ == timestamp_full_name() {
            match j {
                JsonV::Str(t) => match timestamp_json_spec(t) {
                    Ok(_) => Ok(j),
                    Err(msg) => Err(ErrorV::JsonDeserializeError("Invalid Timestamp: "@ + msg)),
                },
                _ => Ok(j),
            }
        } else {
            input_value_spec(s, j, md as nat)
        },
        _ => Ok(j),
    }
}

/// A JSON object for message type `md`, each entry
/// normalized for the field of its name.
pub open spec fn input_value_spec(s: Schema, j: JsonV, md: nat) -> Result<JsonV, ErrorV>
    decreases j, 0nat,
{
    match j {
        JsonV::Object(entries) => match input_entries_spec(s, entries, md) {
            Ok(e) => Ok(JsonV::Object(e)),
            Err(err) => Err(err),
        },
        _ => Err(
            ErrorV::InvalidFieldValue {
                field: "<message>"@,
                expected: "JSON object for "@ + s.messages@[md as int].full_name@,
                actual: json_type_spec(j),
            },
        ),
    }
}

pub open spec fn input_entries_spec(s: Schema, e: Seq<(Seq<char>, JsonV)>, md: nat) -> Result<
    Seq<(Seq<char>, JsonV)>,
    ErrorV,
>
    decreases e, 0nat,
{
    if e.len() == 0 {
        Ok(Seq::empty())
    } else {
        match input_entries_spec(s, e.drop_last(), md) {
            Err(err) => Err(err),
            Ok(p) => {
                let desc = s.messages@[md as int];
                match field_index_spec(desc.fields@, e.last().0) {
                    None => Err(ErrorV::FieldNotFound(e.last().0, desc.full_name@)),
                    Some(fi) => match input_field_spec(s, e.last().1, desc.fields@[fi as int]) {
                        Err(err) => Err(err),
                        Ok(v) => Ok(p.push((e.last().0, v))),
                    },
                }
            },
        }
    }
}

/// The value of field `f`, item by item for a list
/// and value by value for a map.
pub open spec fn input_field_spec(s: Schema, j: JsonV, f: FieldDescriptor) -> Result<JsonV, ErrorV>
    decreases j, 2nat,
{
    if f.is_list {
        match j {
            JsonV::Array(items) => match input_items_spec(s, items, f.kind) {
                Ok(v) => Ok(JsonV::Array(v)),
                Err(e) => Err(e),
            },
            _ => Err(invalid_value_spec(f, "array"@, j)),
        }
    } else if f.is_map {
        match j {
            JsonV::Object(entries) => match f.kind {
                Kind::Message(entry) => match input_map_spec(
                    s,
                    entries,
                    s.messages@[entry as int].fields@[1].kind,
                ) {
                    Ok(v) => Ok(JsonV::Object(v)),
                    Err(e) => Err(e),
                },
                _ => Err(invalid_value_spec(f, "object"@, j)),
            },
            _ => Err(invalid_value_spec(f, "object"@, j)),
        }
    } else {
        input_scalar_spec(s, j, f.kind)
    }
}

pub open spec fn input_items_spec(s: Schema, items: Seq<JsonV>, kind: Kind) -> Result<
    Seq<JsonV>,
    ErrorV,
>
    decreases items, 1nat,
{
    if items.len() == 0 {
        Ok(Seq::empty())
    } else {
        match input_items_spec(s, items.drop_last(), kind) {
            Err(e) => Err(e),
            Ok(p) => match input_scalar_spec(s, items.last(), kind) {
                Err(e) => Err(e),
                Ok(v) => Ok(p.push(v)),
            },
        }
    }
}

pub open spec fn input_map_spec(s: Schema, e: Seq<(Seq<char>, JsonV)>, kind: Kind) -> Result<
    Seq<(Seq<char>, JsonV)>,
    ErrorV,
>
    decreases e, 1nat,
{
    if e.len() == 0 {
        Ok(Seq::empty())
    } else {
        match input_map_spec(s, e.drop_last(), kind) {
            Err(err) => Err(err),
            Ok(p) => match input_scalar_spec(s, e.last().1, kind) {
                Err(err) => Err(err),
                Ok(v) => Ok(p.push((e.last().0, v))),
            },
        }
    }
}

/// The document with its Timestamp strings
/// replaced, then converted as `json_to_proto` converts.
pub open spec fn json_to_proto_with_wkt_spec(
    s: Schema,
    parsed: Result<JsonV, Seq<char>>,
    message_type: Seq<char>,
) -> Result<MessageV, ErrorV> {
    match parsed {
        Err(msg) => Err(ErrorV::JsonDeserializeError("Invalid JSON: "@ + msg)),
        Ok(j) => match get_message_descriptor_spec(s, message_type) {
            Err(e) => Err(e),
            Ok(md) => match input_value_spec(s, j, md) {
                Err(e) => Err(e),
                Ok(nj) => json_to_message_spec(s, md, nj, message_type),
            },
        },
    }
}

pub open spec fn json_result_view(r: Result<JsonValue, ProtoDuckError>) -> Result<JsonV, ErrorV> {
    match r {
        Ok(j) => Ok(j@),
        Err(e) => Err(e@),
    }
}

pub proof fn lemma_input_entries_err(s: Schema, e: Seq<(Seq<char>, JsonV)>, md: nat, j: int)
    requires
        0 <= j <= e.len(),
        input_entries_spec(s, e.subrange(0, j), md) is Err,
    ensures
        input_entries_spec(s, e, md) == input_entries_spec(s, e.subrange(0, j), md),
    decreases e.len(),
{
    if j == e.len() {
        assert(e.subrange(0, j) =~= e);
    } else {
        assert(e.drop_last().subrange(0, j) =~= e.subrange(0, j));
        lemma_input_entries_err(s, e.drop_last(), md, j);
    }
}

pub proof fn lemma_input_items_err(s: Schema, items: Seq<JsonV>, kind: Kind, j: int)
    requires
        0 <= j <= items.len(),
        input_items_spec(s, items.subrange(0, j), kind) is Err,
    ensures
        input_items_spec(s, items, kind) == input_items_spec(s, items.subrange(0, j), kind),
    decreases items.len(),
{
    if j == items.len() {
        assert(items.subrange(0, j) =~= items);
    } else {
        assert(items.drop_last().subrange(0, j) =~= items.subrange(0, j));
        lemma_input_items_err(s, items.drop_last(), kind, j);
    }
}

pub proof fn lemma_input_map_err(s: Schema, e: Seq<(Seq<char>, JsonV)>, kind: Kind, j: int)
    requires
        0 <= j <= e.len(),
        input_map_spec(s, e.subrange(0, j), kind) is Err,
    ensures
        input_map_spec(s, e, kind) == input_map_spec(s, e.subrange(0, j), kind),
    decreases e.len(),
{
    if j == e.len() {
        assert(e.subrange(0, j) =~= e);
    } else {
        assert(e.drop_last().subrange(0, j) =~= e.subrange(0, j));
        lemma_input_map_err(s, e.drop_last(), kind, j);
    }
}

} // verus!

verus! {

/// A value of type `kind` with its Timestamp strings checked.
pub fn normalize_input_scalar(s: &Schema, j: &JsonValue, kind: Kind) -> (r: Result<
    JsonValue,
    ProtoDuckError,
>)
    requires
        s.wf(),
        s.kind_wf(kind),
    ensures
        json_result_view(r) == input_scalar_spec(*s, j@, kind),
    decreases j, 1nat,
{
    match kind {
        Kind::Message(md) => {
            if str_eq(&s.messages[md].full_name, "google.protobuf.Timestamp") {
                match j {
                    JsonValue::String(t) => match read_timestamp_json(t.as_str()) {
                        Ok(_) => Ok(crate::json::clone_json(j)),
                        Err(msg) => Err(
                            ProtoDuckError::JsonDeserializeError(
                                cat2("Invalid Timestamp: ", msg.as_str()),
                            ),
                        ),
                    },
                    _ => Ok(crate::json::clone_json(j)),
                }
            } else {
                normalize_input_value(s, j, md)
            }
        },
        _ => Ok(crate::json::clone_json(j)),
    }
}

/// A JSON object for message type `md`, with every Timestamp string in it
/// checked by prost-reflect's canonical reader and kept as it is; every
/// entry must name a field of the type.
#[verifier::loop_isolation(false)]
pub fn normalize_input_value(s: &Schema, j: &JsonValue, md: usize) -> (r: Result<
    JsonValue,
    ProtoDuckError,
>)
    requires
        s.wf(),
        md < s.messages@.len(),
    ensures
        json_result_view(r) == input_value_spec(*s, j@, md as nat),
    decreases j, 0nat,
{
    let desc = &s.messages[md];
    let entries = match j {
        JsonValue::Object(entries) => entries,
        _ => {
            return Err(
                ProtoDuckError::InvalidFieldValue {
                    field: owned("<message>"),
                    expected: cat2("JSON object for ", desc.full_name.as_str()),
                    actual: owned(json_type(j)),
                },
            );
        },
    };
    let ghost ev = json_entries_view(entries@);
    proof {
        crate::json::lemma_json_entries_view(entries@);
    }
    let mut out: Vec<(String, JsonValue)> = Vec::new();
    let mut i: usize = 0;
    assert(ev.subrange(0, 0) =~= Seq::<(Seq<char>, JsonV)>::empty());
    while i < entries.len()
        invariant
            i <= entries@.len(),
            input_entries_spec(*s, ev.subrange(0, i as int), md as nat) == Ok::<
                Seq<(Seq<char>, JsonV)>,
                ErrorV,
            >(json_entries_view(out@)),
        decreases entries@.len() - i,
    {
        assert(ev.subrange(0, i + 1).drop_last() =~= ev.subrange(0, i as int));
        let name = &entries[i].0;
        proof {
            lemma_field_index(desc.fields@, name@);
        }
        let fi = match get_field_by_name(desc, name.as_str()) {
            Some(fi) => fi,
            None => {
                proof {
                    lemma_input_entries_err(*s, ev, md as nat, i + 1);
                }
                return Err(ProtoDuckError::FieldNotFound(name.clone(), desc.full_name.clone()));
            },
        };
        assert(s.message_wf(s.messages@[md as int]));
        assert(s.field_wf(desc.fields@[fi as int]));
        assert(decreases_to!(*entries => entries@[i as int]));
        assert(decreases_to!(entries@[i as int] => entries@[i as int].1));
        let v = match normalize_input_field(s, &entries[i].1, &desc.fields[fi]) {
            Ok(v) => v,
            Err(e) => {
                proof {
                    lemma_input_entries_err(*s, ev, md as nat, i + 1);
                }
                return Err(e);
            },
        };
        let ghost before = out@;
        out.push((name.clone(), v));
        assert(out@.drop_last() =~= before);
        i = i + 1;
    }
    assert(ev.subrange(0, ev.len() as int) =~= ev);
    Ok(JsonValue::Object(out))
}

/// The value of field `f` with its Timestamp strings checked.
#[verifier::loop_isolation(false)]
pub fn normalize_input_field(s: &Schema, j: &JsonValue, f: &FieldDescriptor) -> (r: Result<
    JsonValue,
    ProtoDuckError,
>)
    requires
        s.wf(),
        s.field_wf(*f),
    ensures
        json_result_view(r) == input_field_spec(*s, j@, *f),
    decreases j, 2nat,
{
    if f.is_list {
        let items = match j {
            JsonValue::Array(items) => items,
            _ => {
                return Err(invalid_value(f, "array", j));
            },
        };
        let ghost iv = json_seq_view(items@);
        proof {
            crate::json::lemma_json_seq_view(items@);
        }
        let mut out: Vec<JsonValue> = Vec::new();
        let mut i: usize = 0;
        assert(iv.subrange(0, 0) =~= Seq::<JsonV>::empty());
        while i < items.len()
            invariant
                i <= items@.len(),
                input_items_spec(*s, iv.subrange(0, i as int), f.kind) == Ok::<Seq<JsonV>, ErrorV>(
                    json_seq_view(out@),
                ),
            decreases items@.len() - i,
        {
            assert(iv.subrange(0, i + 1).drop_last() =~= iv.subrange(0, i as int));
            assert(decreases_to!(*items => items@[i as int]));
            let v = match normalize_input_scalar(s, &items[i], f.kind) {
                Ok(v) => v,
                Err(e) => {
                    proof {
                        lemma_input_items_err(*s, iv, f.kind, i + 1);
                    }
                    return Err(e);
                },
            };
            let ghost before = out@;
            out.push(v);
            assert(out@.drop_last() =~= before);
            i = i + 1;
        }
        assert(iv.subrange(0, iv.len() as int) =~= iv);
        return Ok(JsonValue::Array(out));
    }
    if f.is_map {
        let entries = match j {
            JsonValue::Object(entries) => entries,
            _ => {
                return Err(invalid_value(f, "object", j));
            },
        };
        let entry = match f.kind {
            Kind::Message(entry) => entry,
            _ => {
                return Err(invalid_value(f, "object", j));
            },
        };
        assert(s.message_wf(s.messages@[entry as int]));
        let vk = s.messages[entry].fields[1].kind;
        assert(s.field_wf(s.messages@[entry as int].fields@[1]));
        let ghost ev = json_entries_view(entries@);
        proof {
            crate::json::lemma_json_entries_view(entries@);
        }
        let mut out: Vec<(String, JsonValue)> = Vec::new();
        let mut i: usize = 0;
        assert(ev.subrange(0, 0) =~= Seq::<(Seq<char>, JsonV)>::empty());
        while i < entries.len()
            invariant
                i <= entries@.len(),
                input_map_spec(*s, ev.subrange(0, i as int), vk) == Ok::<
                    Seq<(Seq<char>, JsonV)>,
                    ErrorV,
                >(json_entries_view(out@)),
            decreases entries@.len() - i,
        {
            assert(ev.subrange(0, i + 1).drop_last() =~= ev.subrange(0, i as int));
            assert(decreases_to!(*entries => entries@[i as int]));
            assert(decreases_to!(entries@[i as int] => entries@[i as int].1));
            let v = match normalize_input_scalar(s, &entries[i].1, vk) {
                Ok(v) => v,
                Err(e) => {
                    proof {
                        lemma_input_map_err(*s, ev, vk, i + 1);
                    }
                    return Err(e);
                },
            };
            let ghost before = out@;
            out.push((entries[i].0.clone(), v));
            assert(out@.drop_last() =~= before);
            i = i + 1;
        }
        assert(ev.subrange(0, ev.len() as int) =~= ev);
        return Ok(JsonValue::Object(out));
    }
    normalize_input_scalar(s, j, f.kind)
}

/// Like `json_to_proto`, but a Timestamp may be
/// given as canonical RFC 3339 text, which prost-reflect checks before the
/// document is converted. `parsed` is what serde_json read from the JSON
/// text: the document, or the text of its error.
pub fn json_to_proto_with_wkt(
    s: &Schema,
    parsed: &Result<JsonValue, String>,
    message_type: &str,
) -> (r: Result<crate::value::DynamicMessage, ProtoDuckError>)
    requires
        s.wf(),
    ensures
        message_result_view(r) == json_to_proto_with_wkt_spec(
            *s,
            parsed_view(*parsed),
            message_type@,
        ),
{
    let json = match parsed {
        Ok(j) => j,
        Err(msg) => {
            return Err(ProtoDuckError::JsonDeserializeError(cat2("Invalid JSON: ", msg.as_str())));
        },
    };
    let md = get_message_descriptor(s, message_type)?;
    let normalized = normalize_input_value(s, json, md)?;
    json_value_to_message(s, md, &normalized, message_type)
}

} // verus!

verus! {

/// The seconds and nanos of the neutral object of a Timestamp: its
/// `seconds` and `nanos` entries (each 0 where absent), integers that fit
/// `i64` and `i32`; `None` where the object holds anything else.
pub open spec fn neutral_parts(e: Seq<(Seq<char>, JsonV)>) -> Option<(i64, i32)>
    decreases e.len(),
{
    if e.len() == 0 {
        Some((0, 0))
    } else {
        match neutral_parts(e.drop_last()) {
            None => None,
            Some((secs, nanos)) => {
                let (k, v) = e.last();
                match v {
                    JsonV::Number(n) => match as_i64_spec(n) {
                        Some(x) => if k == "seconds"@ {
                            Some((x, nanos))
                        } else if k == "nanos"@ && i32::MIN <= x <= i32::MAX {
                            Some((secs, x as i32))
                        } else {
                            None
                        },
                        None => None,
                    },
                    _ => None,
                }
            },
        }
    }
}

pub open spec fn output_err(msg: Seq<char>) -> ErrorV {
    ErrorV::JsonSerializeError("Invalid Timestamp: "@ + msg)
}

/// The range of instants that ProtoJSON writes: the years 0001 to 9999,
/// with nanoseconds below one second (prost-reflect's writer refuses the
/// others).
pub open spec fn timestamp_in_range(secs: i64, nanos: i32) -> bool {
    -62135596800 <= secs <= 253402300799 && 0 <= nanos < 1_000_000_000
}

/// The canonical RFC 3339 text of an instant, or the error where there is
/// none.
pub open spec fn canonical_timestamp_spec(secs: i64, nanos: i32) -> Result<JsonV, ErrorV> {
    let none = output_err(
        "no instant at seconds="@ + int_text(secs as int) + ", nanos="@ + int_text(nanos as int),
    );
    if !timestamp_in_range(secs, nanos) {
        Err(ErrorV::JsonSerializeError("timestamp out of range"@))
    } else {
        match rfc3339_format_spec(secs, nanos as u32) {
            Some(t) => Ok(JsonV::Str(t)),
            None => Err(none),
        }
    }
}

/// A Timestamp value as canonical RFC 3339 text: from RFC 3339 text that
/// prost-reflect's reader accepts, or from the neutral `{seconds, nanos}`
/// object.
pub open spec fn output_timestamp_spec(j: JsonV) -> Result<JsonV, ErrorV> {
    match j {
        JsonV::Str(t) => match timestamp_json_spec(t) {
            Ok((secs, nanos)) => canonical_timestamp_spec(secs, nanos),
            Err(msg) => Err(output_err(msg)),
        },
        JsonV::Object(e) => match neutral_parts(e) {
            Some((secs, nanos)) => canonical_timestamp_spec(secs, nanos),
            None => Err(output_err("expected seconds and nanos"@)),
        },
        _ => Err(output_err("expected RFC 3339 text or an object, got "@ + json_type_spec(j))),
    }
}

/// `normalize_output_value`: the JSON of a message of type `md` with every
/// Timestamp in it written as canonical RFC 3339 text. Entries that name no
/// field, and values of the wrong JSON type, are kept as they are.
pub open spec fn output_value_spec(s: Schema, j: JsonV, md: nat) -> Result<JsonV, ErrorV>
    decreases j, 0nat,
{
    if s.messages@[md as int].full_name@ == timestamp_full_name() {
        output_timestamp_spec(j)
    } else {
        match j {
            JsonV::Object(e) => match output_entries_spec(s, e, md) {
                Ok(r) => Ok(JsonV::Object(r)),
                Err(err) => Err(err),
            },
            _ => Ok(j),
        }
    }
}

pub open spec fn output_entries_spec(s: Schema, e: Seq<(Seq<char>, JsonV)>, md: nat) -> Result<
    Seq<(Seq<char>, JsonV)>,
    ErrorV,
>
    decreases e, 0nat,
{
    if e.len() == 0 {
        Ok(Seq::empty())
    } else {
        match output_entries_spec(s, e.drop_last(), md) {
            Err(err) => Err(err),
            Ok(p) => {
                let fields = s.messages@[md as int].fields@;
                match field_index_spec(fields, e.last().0) {
                    None => Ok(p.push(e.last())),
                    Some(fi) => match output_field_spec(s, e.last().1, fields[fi as int]) {
                        Err(err) => Err(err),
                        Ok(v) => Ok(p.push((e.last().0, v))),
                    },
                }
            },
        }
    }
}

pub open spec fn output_field_spec(s: Schema, j: JsonV, f: FieldDescriptor) -> Result<JsonV, ErrorV>
    decreases j, 2nat,
{
    if f.is_list {
        match j {
            JsonV::Array(items) => match output_items_spec(s, items, f.kind) {
                Ok(v) => Ok(JsonV::Array(v)),
                Err(e) => Err(e),
            },
            _ => Ok(j),
        }
    } else if f.is_map {
        match j {
            JsonV::Object(entries) => match f.kind {
                Kind::Message(entry) => match output_map_spec(
                    s,
                    entries,
                    s.messages@[entry as int].fields@[1].kind,
                ) {
                    Ok(v) => Ok(JsonV::Object(v)),
                    Err(e) => Err(e),
                },
                _ => Ok(j),
            },
            _ => Ok(j),
        }
    } else {
        output_scalar_spec(s, j, f.kind)
    }
}

pub open spec fn output_scalar_spec(s: Schema, j: JsonV, kind: Kind) -> Result<JsonV, ErrorV>
    decreases j, 1nat,
{
    match kind {
        Kind::Message(md) => output_value_spec(s, j, md as nat),
        _ => Ok(j),
    }
}

pub open spec fn output_items_spec(s: Schema, items: Seq<JsonV>, kind: Kind) -> Result<
    Seq<JsonV>,
    ErrorV,
>
    decreases items, 1nat,
{
    if items.len() == 0 {
        Ok(Seq::empty())
    } else {
        match output_items_spec(s, items.drop_last(), kind) {
            Err(e) => Err(e),
            Ok(p) => match output_scalar_spec(s, items.last(), kind) {
                Err(e) => Err(e),
                Ok(v) => Ok(p.push(v)),
            },
        }
    }
}

pub open spec fn output_map_spec(s: Schema, e: Seq<(Seq<char>, JsonV)>, kind: Kind) -> Result<
    Seq<(Seq<char>, JsonV)>,
    ErrorV,
>
    decreases e, 1nat,
{
    if e.len() == 0 {
        Ok(Seq::empty())
    } else {
        match output_map_spec(s, e.drop_last(), kind) {
            Err(err) => Err(err),
            Ok(p) => match output_scalar_spec(s, e.last().1, kind) {
                Err(err) => Err(err),
                Ok(v) => Ok(p.push((e.last().0, v))),
            },
        }
    }
}

pub proof fn lemma_output_entries_err(s: Schema, e: Seq<(Seq<char>, JsonV)>, md: nat, j: int)
    requires
        0 <= j <= e.len(),
        output_entries_spec(s, e.subrange(0, j), md) is Err,
    ensures
        output_entries_spec(s, e, md) == output_entries_spec(s, e.subrange(0, j), md),
    decreases e.len(),
{
    if j == e.len() {
        assert(e.subrange(0, j) =~= e);
    } else {
        assert(e.drop_last().subrange(0, j) =~= e.subrange(0, j));
        lemma_output_entries_err(s, e.drop_last(), md, j);
    }
}

pub proof fn lemma_output_items_err(s: Schema, items: Seq<JsonV>, kind: Kind, j: int)
    requires
        0 <= j <= items.len(),
        output_items_spec(s, items.subrange(0, j), kind) is Err,
    ensures
        output_items_spec(s, items, kind) == output_items_spec(s, items.subrange(0, j), kind),
    decreases items.len(),
{
    if j == items.len() {
        assert(items.subrange(0, j) =~= items);
    } else {
        assert(items.drop_last().subrange(0, j) =~= items.subrange(0, j));
        lemma_output_items_err(s, items.drop_last(), kind, j);
    }
}

pub proof fn lemma_output_map_err(s: Schema, e: Seq<(Seq<char>, JsonV)>, kind: Kind, j: int)
    requires
        0 <= j <= e.len(),
        output_map_spec(s, e.subrange(0, j), kind) is Err,
    ensures
        output_map_spec(s, e, kind) == output_map_spec(s, e.subrange(0, j), kind),
    decreases e.len(),
{
    if j == e.len() {
        assert(e.subrange(0, j) =~= e);
    } else {
        assert(e.drop_last().subrange(0, j) =~= e.subrange(0, j));
        lemma_output_map_err(s, e.drop_last(), kind, j);
    }
}

fn neutral_timestamp(e: &Vec<(String, JsonValue)>) -> (r: Option<(i64, i32)>)
    ensures
        r == neutral_parts(json_entries_view(e@)),
{
    let ghost ev = json_entries_view(e@);
    proof {
        crate::json::lemma_json_entries_view(e@);
    }
    let mut secs: i64 = 0;
    let mut nanos: i32 = 0;
    let mut i: usize = 0;
    assert(ev.subrange(0, 0) =~= Seq::<(Seq<char>, JsonV)>::empty());
    while i < e.len()
        invariant
            i <= e@.len(),
            ev == json_entries_view(e@),
            ev.len() == e@.len(),
            forall|k: int| 0 <= k < e@.len() ==> #[trigger] ev[k] == (e@[k].0@, e@[k].1@),
            neutral_parts(ev.subrange(0, i as int)) == Some((secs, nanos)),
        decreases e@.len() - i,
    {
        let ghost pre = ev.subrange(0, i as int);
        assert(ev.subrange(0, i + 1).drop_last() =~= pre);
        assert(ev.subrange(0, i + 1).last() == ev[i as int]);
        let x = match &e[i].1 {
            JsonValue::Number(n) => match as_i64(*n) {
                Some(x) => x,
                None => {
                    proof {
                        lemma_neutral_none(ev, i + 1);
                    }
                    return None;
                },
            },
            _ => {
                proof {
                    lemma_neutral_none(ev, i + 1);
                }
                return None;
            },
        };
        if str_eq(&e[i].0, "seconds") {
            secs = x;
        } else if str_eq(&e[i].0, "nanos") && i32::MIN as i64 <= x && x <= i32::MAX as i64 {
            nanos = x as i32;
        } else {
            proof {
                lemma_neutral_none(ev, i + 1);
            }
            return None;
        }
        i = i + 1;
    }
    assert(ev.subrange(0, ev.len() as int) =~= ev);
    Some((secs, nanos))
}

proof fn lemma_neutral_none(e: Seq<(Seq<char>, JsonV)>, j: int)
    requires
        0 <= j <= e.len(),
        neutral_parts(e.subrange(0, j)) is None,
    ensures
        neutral_parts(e) is None,
    decreases e.len(),
{
    if j == e.len() {
        assert(e.subrange(0, j) =~= e);
    } else {
        assert(e.drop_last().subrange(0, j) =~= e.subrange(0, j));
        lemma_neutral_none(e.drop_last(), j);
    }
}

fn no_instant(secs: i64, nanos: i32) -> (e: ProtoDuckError)
    ensures
        e@ == output_err(
            "no instant at seconds="@ + int_text(secs as int) + ", nanos="@ + int_text(nanos as int),
        ),
{
    let st = format_signed(secs);
    let nt = format_signed(nanos as i64);
    let mut msg = owned("Invalid Timestamp: ");
    msg.append("no instant at seconds=");
    msg.append(st.as_str());
    msg.append(", nanos=");
    msg.append(nt.as_str());
    assert(msg@ =~= "Invalid Timestamp: "@ + ("no instant at seconds="@ + int_text(secs as int)
        + ", nanos="@ + int_text(nanos as int)));
    ProtoDuckError::JsonSerializeError(msg)
}

fn canonical_timestamp(secs: i64, nanos: i32) -> (r: Result<JsonValue, ProtoDuckError>)
    ensures
        json_result_view(r) == canonical_timestamp_spec(secs, nanos),
{
    if !(-62135596800i64 <= secs && secs <= 253402300799i64 && 0 <= nanos && nanos < 1_000_000_000i32) {
        return Err(ProtoDuckError::JsonSerializeError(owned("timestamp out of range")));
    }
    match format_rfc3339(secs, nanos as u32) {
        Some(t) => Ok(JsonValue::String(t)),
        None => Err(no_instant(secs, nanos)),
    }
}

fn output_timestamp(j: &JsonValue) -> (r: Result<JsonValue, ProtoDuckError>)
    ensures
        json_result_view(r) == output_timestamp_spec(j@),
{
    match j {
        JsonValue::String(t) => match read_timestamp_json(t.as_str()) {
            Ok((secs, nanos)) => canonical_timestamp(secs, nanos),
            Err(msg) => Err(ProtoDuckError::JsonSerializeError(cat2("Invalid Timestamp: ", msg.as_str()))),
        },
        JsonValue::Object(e) => match neutral_timestamp(e) {
            Some((secs, nanos)) => canonical_timestamp(secs, nanos),
            None => Err(ProtoDuckError::JsonSerializeError(cat2("Invalid Timestamp: ", "expected seconds and nanos"))),
        },
        _ => {
            let msg = cat3("Invalid Timestamp: ", "expected RFC 3339 text or an object, got ", json_type(j));
            assert(msg@ =~= "Invalid Timestamp: "@ + ("expected RFC 3339 text or an object, got "@ + json_type_spec(j@)));
            Err(ProtoDuckError::JsonSerializeError(msg))
        },
    }
}

/// The JSON of a message of type `md`, with every Timestamp in it written
/// as canonical RFC 3339 text; entries that name no field, and values of
/// the wrong JSON type, are kept.
#[verifier::loop_isolation(false)]
pub fn normalize_output_value(s: &Schema, j: &JsonValue, md: usize) -> (r: Result<
    JsonValue,
    ProtoDuckError,
>)
    requires
        s.wf(),
        md < s.messages@.len(),
    ensures
        json_result_view(r) == output_value_spec(*s, j@, md as nat),
    decreases j, 0nat,
{
    if str_eq(&s.messages[md].full_name, "google.protobuf.Timestamp") {
        return output_timestamp(j);
    }
    let entries = match j {
        JsonValue::Object(entries) => entries,
        _ => {
            return Ok(crate::json::clone_json(j));
        },
    };
    let desc = &s.messages[md];
    let ghost ev = json_entries_view(entries@);
    proof {
        crate::json::lemma_json_entries_view(entries@);
    }
    let mut out: Vec<(String, JsonValue)> = Vec::new();
    let mut i: usize = 0;
    assert(ev.subrange(0, 0) =~= Seq::<(Seq<char>, JsonV)>::empty());
    while i < entries.len()
        invariant
            i <= entries@.len(),
            output_entries_spec(*s, ev.subrange(0, i as int), md as nat) == Ok::<
                Seq<(Seq<char>, JsonV)>,
                ErrorV,
            >(json_entries_view(out@)),
        decreases entries@.len() - i,
    {
        assert(ev.subrange(0, i + 1).drop_last() =~= ev.subrange(0, i as int));
        let name = &entries[i].0;
        proof {
            lemma_field_index(desc.fields@, name@);
        }
        assert(decreases_to!(*entries => entries@[i as int]));
        assert(decreases_to!(entries@[i as int] => entries@[i as int].1));
        let v = match get_field_by_name(desc, name.as_str()) {
            None => crate::json::clone_json(&entries[i].1),
            Some(fi) => {
                assert(s.message_wf(s.messages@[md as int]));
                assert(s.field_wf(desc.fields@[fi as int]));
                match normalize_output_field(s, &entries[i].1, &desc.fields[fi]) {
                    Ok(v) => v,
                    Err(e) => {
                        proof {
                            lemma_output_entries_err(*s, ev, md as nat, i + 1);
                        }
                        return Err(e);
                    },
                }
            },
        };
        let ghost before = out@;
        out.push((name.clone(), v));
        assert(out@.drop_last() =~= before);
        i = i + 1;
    }
    assert(ev.subrange(0, ev.len() as int) =~= ev);
    Ok(JsonValue::Object(out))
}

/// The value of field `f`, with every Timestamp in it written as canonical
/// RFC 3339 text.
#[verifier::loop_isolation(false)]
pub fn normalize_output_field(s: &Schema, j: &JsonValue, f: &FieldDescriptor) -> (r: Result<
    JsonValue,
    ProtoDuckError,
>)
    requires
        s.wf(),
        s.field_wf(*f),
    ensures
        json_result_view(r) == output_field_spec(*s, j@, *f),
    decreases j, 2nat,
{
    if f.is_list {
        let items = match j {
            JsonValue::Array(items) => items,
            _ => {
                return Ok(crate::json::clone_json(j));
            },
        };
        let ghost iv = json_seq_view(items@);
        proof {
            crate::json::lemma_json_seq_view(items@);
        }
        let mut out: Vec<JsonValue> = Vec::new();
        let mut i: usize = 0;
        assert(iv.subrange(0, 0) =~= Seq::<JsonV>::empty());
        while i < items.len()
            invariant
                i <= items@.len(),
                output_items_spec(*s, iv.subrange(0, i as int), f.kind) == Ok::<
                    Seq<JsonV>,
                    ErrorV,
                >(json_seq_view(out@)),
            decreases items@.len() - i,
        {
            assert(iv.subrange(0, i + 1).drop_last() =~= iv.subrange(0, i as int));
            assert(decreases_to!(*items => items@[i as int]));
            let v = match normalize_output_scalar(s, &items[i], f.kind) {
                Ok(v) => v,
                Err(e) => {
                    proof {
                        lemma_output_items_err(*s, iv, f.kind, i + 1);
                    }
                    return Err(e);
                },
            };
            let ghost before = out@;
            out.push(v);
            assert(out@.drop_last() =~= before);
            i = i + 1;
        }
        assert(iv.subrange(0, iv.len() as int) =~= iv);
        return Ok(JsonValue::Array(out));
    }
    if f.is_map {
        let entries = match j {
            JsonValue::Object(entries) => entries,
            _ => {
                return Ok(crate::json::clone_json(j));
            },
        };
        let entry = match f.kind {
            Kind::Message(entry) => entry,
            _ => {
                return Ok(crate::json::clone_json(j));
            },
        };
        assert(s.message_wf(s.messages@[entry as int]));
        let vk = s.messages[entry].fields[1].kind;
        assert(s.field_wf(s.messages@[entry as int].fields@[1]));
        let ghost ev = json_entries_view(entries@);
        proof {
            crate::json::lemma_json_entries_view(entries@);
        }
        let mut out: Vec<(String, JsonValue)> = Vec::new();
        let mut i: usize = 0;
        assert(ev.subrange(0, 0) =~= Seq::<(Seq<char>, JsonV)>::empty());
        while i < entries.len()
            invariant
                i <= entries@.len(),
                output_map_spec(*s, ev.subrange(0, i as int), vk) == Ok::<
                    Seq<(Seq<char>, JsonV)>,
                    ErrorV,
                >(json_entries_view(out@)),
            decreases entries@.len() - i,
        {
            assert(ev.subrange(0, i + 1).drop_last() =~= ev.subrange(0, i as int));
            assert(decreases_to!(*entries => entries@[i as int]));
            assert(decreases_to!(entries@[i as int] => entries@[i as int].1));
            let v = match normalize_output_scalar(s, &entries[i].1, vk) {
                Ok(v) => v,
                Err(e) => {
                    proof {
                        lemma_output_map_err(*s, ev, vk, i + 1);
                    }
                    return Err(e);
                },
            };
            let ghost before = out@;
            out.push((entries[i].0.clone(), v));
            assert(out@.drop_last() =~= before);
            i = i + 1;
        }
        assert(ev.subrange(0, ev.len() as int) =~= ev);
        return Ok(JsonValue::Object(out));
    }
    normalize_output_scalar(s, j, f.kind)
}

/// A value of type `kind`, with every Timestamp in it written as canonical
/// RFC 3339 text.
pub fn normalize_output_scalar(s: &Schema, j: &JsonValue, kind: Kind) -> (r: Result<
    JsonValue,
    ProtoDuckError,
>)
    requires
        s.wf(),
        s.kind_wf(kind),
    ensures
        json_result_view(r) == output_scalar_spec(*s, j@, kind),
    decreases j, 1nat,
{
    match kind {
        Kind::Message(md) => normalize_output_value(s, j, md),
        _ => Ok(crate::json::clone_json(j)),
    }
}

} // verus!
