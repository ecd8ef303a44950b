//! Protobuf to JSON: a decoded message becomes a JSON object, with enum
//! numbers written as names, bytes as base64 and Timestamps as RFC 3339
//! text.

use vstd::prelude::*;

use crate::error::{ErrorV, ProtoDuckError};
use crate::external::{base64_encode, format_rfc3339, rfc3339_format_spec};
use crate::json::{json_entries_view, json_seq_view, json_view, JsonNumber, JsonV, JsonValue};
use crate::numeric::{bool_text, format_bool, format_signed, format_unsigned, int_text};
use crate::schema::{
    field_index_spec, get_field_by_name, lemma_field_index, message_ok, value_ok,
    EnumValueDescriptor, FieldDescriptor, Kind, Schema,
};
use crate::text::{cat5, owned};
use crate::value::{
    clone_message, DynamicMessage, FloatRepr, FloatReprV, MapKey, MapKeyV, MessageV, Value, ValueV,
};

verus! {

pub open spec fn timestamp_full_name() -> Seq<char> {
    "google.protobuf.Timestamp"@
}

/// The field's type is `google.protobuf.Timestamp`.
pub open spec fn is_timestamp_kind(s: Schema, k: Kind) -> bool {
    k matches Kind::Message(m) && s.messages@[m as int].full_name@ == timestamp_full_name()
}

/// Name of the first value of the enum with number `n`.
pub open spec fn enum_name_spec(values: Seq<EnumValueDescriptor>, n: i32) -> Option<Seq<char>>
    decreases values.len(),
{
    if values.len() == 0 {
        None
    } else if values[0].number == n {
        Some(values[0].name@)
    } else {
        enum_name_spec(values.drop_first(), n)
    }
}

/// Position of the first entry set for field `fi`.
pub open spec fn entry_index(fields: Seq<(nat, ValueV)>, fi: nat) -> Option<int>
    decreases fields.len(),
{
    if fields.len() == 0 {
        None
    } else if fields[0].0 == fi {
        Some(0)
    } else {
        match entry_index(fields.drop_first(), fi) {
            Some(j) => Some(j + 1),
            None => None,
        }
    }
}

pub proof fn lemma_entry_index(fields: Seq<(nat, ValueV)>, fi: nat)
    ensures
        entry_index(fields, fi) matches Some(j) ==> 0 <= j < fields.len() && fields[j].0 == fi,
        entry_index(fields, fi) is None ==> forall|k: int|
            0 <= k < fields.len() ==> #[trigger] fields[k].0 != fi,
    decreases fields.len(),
{
    if fields.len() > 0 {
        lemma_entry_index(fields.drop_first(), fi);
        if entry_index(fields, fi) is None {
            assert forall|k: int| 0 <= k < fields.len() implies #[trigger] fields[k].0 != fi by {
                if k > 0 {
                    assert(fields.drop_first()[k - 1] == fields[k]);
                }
            }
        }
    }
}

/// `DynamicMessage::get_field`: the value set for field `fi`, or its default.
pub open spec fn get_field_spec(s: Schema, m: MessageV, fi: nat) -> ValueV {
    match entry_index(m.fields, fi) {
        Some(j) => m.fields[j].1,
        None => s.messages@[m.descriptor as int].fields@[fi as int].default_value@,
    }
}

/// serde_json's number for an integer.
pub open spec fn json_int(v: int) -> JsonNumber {
    if v < 0 {
        JsonNumber::NegInt(v as i64)
    } else {
        JsonNumber::PosInt(v as u64)
    }
}

pub open spec fn float_json(f: FloatReprV) -> JsonNumber {
    match f {
        FloatReprV::Decoded { json, .. } => json,
        FloatReprV::FromJson(n) => n,
    }
}

/// Text of a map key in a JSON object.
pub open spec fn map_key_text(k: MapKeyV) -> Seq<char> {
    match k {
        MapKeyV::Bool(b) => bool_text(b),
        MapKeyV::I32(v) => int_text(v as int),
        MapKeyV::I64(v) => int_text(v as int),
        MapKeyV::U32(v) => int_text(v as int),
        MapKeyV::U64(v) => int_text(v as int),
        MapKeyV::Str(s) => s,
    }
}

pub open spec fn field_err(field: &str, expected: &str, actual: &str) -> ErrorV {
    ErrorV::InvalidFieldValue { field: field@, expected: expected@, actual: actual@ }
}

/// A Timestamp message as RFC 3339 text.
pub open spec fn timestamp_to_json_spec(s: Schema, m: MessageV) -> Result<JsonV, ErrorV> {
    let fields = s.messages@[m.descriptor as int].fields@;
    match field_index_spec(fields, "seconds"@) {
        None => Err(field_err("seconds", "Timestamp seconds field", "missing")),
        Some(si) => match field_index_spec(fields, "nanos"@) {
            None => Err(field_err("nanos", "Timestamp nanos field", "missing")),
            Some(ni) => match get_field_spec(s, m, si) {
                ValueV::I64(secs) => match get_field_spec(s, m, ni) {
                    ValueV::I32(nanos) => {
                        let bad = ErrorV::InvalidFieldValue {
                            field: "timestamp"@,
                            expected: "valid protobuf Timestamp"@,
                            actual: "seconds="@ + int_text(secs as int) + ", nanos="@ + int_text(
                                nanos as int,
                            ),
                        };
                        if nanos < 0 {
                            Err(bad)
                        } else {
                            match rfc3339_format_spec(secs, nanos as u32) {
                                Some(t) => Ok(JsonV::Str(t)),
                                None => Err(bad),
                            }
                        }
                    },
                    _ => Err(field_err("nanos", "int32", "invalid descriptor")),
                },
                _ => Err(field_err("seconds", "int64", "invalid descriptor")),
            },
        },
    }
}

/// A field value as JSON; `f` is the field it belongs to.
pub open spec fn value_to_json_spec(s: Schema, v: ValueV, f: FieldDescriptor) -> Result<JsonV, ErrorV>
    decreases v, 0nat,
{
    if is_timestamp_kind(s, f.kind) && v is Message {
        timestamp_to_json_spec(s, v->Message_0)
    } else {
        match v {
            ValueV::Bool(b) => Ok(JsonV::Bool(b)),
            ValueV::I32(x) => Ok(JsonV::Number(json_int(x as int))),
            ValueV::I64(x) => Ok(JsonV::Number(json_int(x as int))),
            ValueV::U32(x) => Ok(JsonV::Number(json_int(x as int))),
            ValueV::U64(x) => Ok(JsonV::Number(json_int(x as int))),
            ValueV::F32(x) => Ok(JsonV::Number(float_json(x))),
            ValueV::F64(x) => Ok(JsonV::Number(float_json(x))),
            ValueV::Str(t) => Ok(JsonV::Str(t)),
            ValueV::Bytes(b) => Ok(JsonV::Str(crate::external::base64_encode_spec(b))),
            ValueV::EnumNumber(n) => match f.kind {
                Kind::Enum(e) => match enum_name_spec(s.enums@[e as int].values@, n) {
                    Some(name) => Ok(JsonV::Str(name)),
                    None => Ok(JsonV::Number(json_int(n as int))),
                },
                _ => Ok(JsonV::Number(json_int(n as int))),
            },
            ValueV::Message(m) => match fields_json_spec(
                s,
                m,
                s.messages@[m.descriptor as int].fields@.len(),
            ) {
                Ok(entries) => Ok(JsonV::Object(entries)),
                Err(e) => Err(e),
            },
            ValueV::List(l) => match list_json_spec(s, l, f) {
                Ok(items) => Ok(JsonV::Array(items)),
                Err(e) => Err(e),
            },
            ValueV::MapOf(e) => match entries_json_spec(s, e, f, map_value_field(s, f)) {
                Ok(entries) => Ok(JsonV::Object(entries)),
                Err(err) => Err(err),
            },
        }
    }
}

pub open spec fn list_json_spec(s: Schema, l: Seq<ValueV>, f: FieldDescriptor) -> Result<
    Seq<JsonV>,
    ErrorV,
>
    decreases l, 0nat,
{
    if l.len() == 0 {
        Ok(Seq::empty())
    } else {
        match list_json_spec(s, l.drop_last(), f) {
            Err(e) => Err(e),
            Ok(p) => match value_to_json_spec(s, l.last(), f) {
                Err(e) => Err(e),
                Ok(j) => Ok(p.push(j)),
            },
        }
    }
}

/// The field that the values of a map field are read by: the value field of
/// its entry type (or the field itself where it has no entry type).
pub open spec fn map_value_field(s: Schema, f: FieldDescriptor) -> FieldDescriptor {
    match f.kind {
        Kind::Message(entry) => if s.messages@[entry as int].fields@.len() >= 2 {
            s.messages@[entry as int].fields@[1]
        } else {
            f
        },
        _ => f,
    }
}

/// The field that a map value is written by: a message value by the map
/// field itself (so that a Timestamp value is written as its message, as
/// its fields), any other value by the entry type's value field (so that
/// an enum value is written by its name).
pub open spec fn map_value_writer(v: ValueV, mf: FieldDescriptor, vf: FieldDescriptor) -> FieldDescriptor {
    if v is Message {
        mf
    } else {
        vf
    }
}

/// The entries of a map as JSON; `mf` is the map field and `vf` the value
/// field of its entry type.
pub open spec fn entries_json_spec(
    s: Schema,
    l: Seq<(MapKeyV, ValueV)>,
    mf: FieldDescriptor,
    vf: FieldDescriptor,
) -> Result<Seq<(Seq<char>, JsonV)>, ErrorV>
    decreases l, 0nat,
{
    if l.len() == 0 {
        Ok(Seq::empty())
    } else {
        match entries_json_spec(s, l.drop_last(), mf, vf) {
            Err(e) => Err(e),
            Ok(p) => match value_to_json_spec(s, l.last().1, map_value_writer(l.last().1, mf, vf)) {
                Err(e) => Err(e),
                Ok(j) => Ok(p.push((map_key_text(l.last().0), j))),
            },
        }
    }
}

/// The JSON entries of the first `k` fields of the message's type: a set
/// field gives its value, an unset list `[]`, an unset map `{}`, any other
/// unset field nothing.
pub open spec fn fields_json_spec(s: Schema, m: MessageV, k: nat) -> Result<
    Seq<(Seq<char>, JsonV)>,
    ErrorV,
>
    decreases m, k,
{
    if k == 0 {
        Ok(Seq::empty())
    } else {
        match fields_json_spec(s, m, (k - 1) as nat) {
            Err(e) => Err(e),
            Ok(p) => {
                let f = s.messages@[m.descriptor as int].fields@[k - 1];
                match entry_index(m.fields, (k - 1) as nat) {
                    Some(j) => {
                        proof {
                            lemma_entry_index(m.fields, (k - 1) as nat);
                        }
                        match value_to_json_spec(s, m.fields[j].1, f) {
                            Err(e) => Err(e),
                            Ok(jv) => Ok(p.push((f.name@, jv))),
                        }
                    },
                    None => if f.is_list {
                        Ok(p.push((f.name@, JsonV::Array(Seq::empty()))))
                    } else if f.is_map {
                        Ok(p.push((f.name@, JsonV::Object(Seq::empty()))))
                    } else {
                        Ok(p)
                    },
                }
            },
        }
    }
}

/// A message as a JSON object.
pub open spec fn message_to_json_spec(s: Schema, m: MessageV) -> Result<JsonV, ErrorV> {
    match fields_json_spec(s, m, s.messages@[m.descriptor as int].fields@.len()) {
        Ok(entries) => Ok(JsonV::Object(entries)),
        Err(e) => Err(e),
    }
}

/// Once the entries of a prefix of the fields fail, all later ones fail
/// with the same error.
pub proof fn lemma_fields_json_err(s: Schema, m: MessageV, k: nat, k2: nat)
    requires
        k <= k2,
        fields_json_spec(s, m, k) is Err,
    ensures
        fields_json_spec(s, m, k2) == fields_json_spec(s, m, k),
    decreases k2,
{
    if k < k2 {
        lemma_fields_json_err(s, m, k, (k2 - 1) as nat);
    }
}

pub proof fn lemma_list_json_err(s: Schema, l: Seq<ValueV>, f: FieldDescriptor, j: int)
    requires
        0 <= j <= l.len(),
        list_json_spec(s, l.subrange(0, j), f) is Err,
    ensures
        list_json_spec(s, l, f) == list_json_spec(s, l.subrange(0, j), f),
    decreases l.len(),
{
    if j == l.len() {
        assert(l.subrange(0, j) =~= l);
    } else {
        assert(l.drop_last().subrange(0, j) =~= l.subrange(0, j));
        lemma_list_json_err(s, l.drop_last(), f, j);
    }
}

pub proof fn lemma_entries_json_err(
    s: Schema,
    l: Seq<(MapKeyV, ValueV)>,
    mf: FieldDescriptor,
    vf: FieldDescriptor,
    j: int,
)
    requires
        0 <= j <= l.len(),
        entries_json_spec(s, l.subrange(0, j), mf, vf) is Err,
    ensures
        entries_json_spec(s, l, mf, vf) == entries_json_spec(s, l.subrange(0, j), mf, vf),
    decreases l.len(),
{
    if j == l.len() {
        assert(l.subrange(0, j) =~= l);
    } else {
        assert(l.drop_last().subrange(0, j) =~= l.subrange(0, j));
        lemma_entries_json_err(s, l.drop_last(), mf, vf, j);
    }
}

pub open spec fn json_result_view(r: Result<JsonValue, ProtoDuckError>) -> Result<JsonV, ErrorV> {
    match r {
        Ok(j) => Ok(j@),
        Err(e) => Err(e@),
    }
}

pub fn field_error(field: &str, expected: &str, actual: &str) -> (e: ProtoDuckError)
    ensures
        e@ == field_err(field, expected, actual),
{
    ProtoDuckError::InvalidFieldValue {
        field: owned(field),
        expected: owned(expected),
        actual: owned(actual),
    }
}

/// `EnumDescriptor::get_value(n)`, read as the value's name.
pub fn enum_name(values: &Vec<EnumValueDescriptor>, n: i32) -> (r: Option<String>)
    ensures
        match r {
            Some(name) => enum_name_spec(values@, n) == Some(name@),
            None => enum_name_spec(values@, n) is None,
        },
{
    let mut i: usize = 0;
    assert(values@.subrange(0, values@.len() as int) =~= values@);
    while i < values.len()
        invariant
            i <= values@.len(),
            enum_name_spec(values@.subrange(i as int, values@.len() as int), n) == enum_name_spec(
                values@,
                n,
            ),
        decreases values@.len() - i,
    {
        let ghost rest = values@.subrange(i as int, values@.len() as int);
        assert(rest.drop_first() =~= values@.subrange(i + 1, values@.len() as int));
        if values[i].number == n {
            return Some(values[i].name.clone());
        }
        i = i + 1;
    }
    None
}

/// Position of the entry set for field `fi`.
pub fn find_entry(fields: &Vec<(usize, Value)>, fi: usize) -> (r: Option<usize>)
    ensures
        match r {
            Some(j) => entry_index(crate::value::field_entries_view(fields@), fi as nat) == Some(
                j as int,
            ),
            None => entry_index(crate::value::field_entries_view(fields@), fi as nat) is None,
        },
{
    let ghost fv = crate::value::field_entries_view(fields@);
    proof {
        crate::value::lemma_field_entries_view(fields@);
    }
    let mut i: usize = 0;
    assert(fv.subrange(0, fv.len() as int) =~= fv);
    while i < fields.len()
        invariant
            i <= fields@.len(),
            fv == crate::value::field_entries_view(fields@),
            fv.len() == fields@.len(),
            forall|k: int| 0 <= k < fields@.len() ==> #[trigger] fv[k].0 == fields@[k].0 as nat,
            entry_index(fv.subrange(i as int, fv.len() as int), fi as nat) matches Some(j)
                ==> entry_index(fv, fi as nat) == Some(j + i),
            entry_index(fv.subrange(i as int, fv.len() as int), fi as nat) is None ==> entry_index(
                fv,
                fi as nat,
            ) is None,
        decreases fields@.len() - i,
    {
        let ghost rest = fv.subrange(i as int, fv.len() as int);
        assert(rest.drop_first() =~= fv.subrange(i + 1, fv.len() as int));
        if fields[i].0 == fi {
            assert(rest[0].0 == fi as nat);
            return Some(i);
        }
        i = i + 1;
    }
    assert(fv.subrange(fv.len() as int, fv.len() as int) =~= Seq::<(nat, ValueV)>::empty());
    None
}

} // verus!

verus! {

/// Text of a map key as a JSON object key.
pub fn map_key_to_string(k: &MapKey) -> (s: String)
    ensures
        s@ == map_key_text(k@),
{
    match k {
        MapKey::Bool(b) => format_bool(*b),
        MapKey::I32(v) => format_signed(*v as i64),
        MapKey::I64(v) => format_signed(*v),
        MapKey::U32(v) => format_unsigned(*v as u64),
        MapKey::U64(v) => format_unsigned(*v),
        MapKey::String(s) => s.clone(),
    }
}

/// `DynamicMessage::get_field`: the value set for field `fi`, or its default.
pub fn get_field<'a>(s: &'a Schema, m: &'a DynamicMessage, fi: usize) -> (r: &'a Value)
    requires
        m.descriptor < s.messages@.len(),
        fi < s.messages@[m.descriptor as int].fields@.len(),
    ensures
        r@ == get_field_spec(*s, m@, fi as nat),
{
    proof {
        crate::value::lemma_field_entries_view(m.fields@);
        lemma_entry_index(crate::value::field_entries_view(m.fields@), fi as nat);
    }
    match find_entry(&m.fields, fi) {
        Some(j) => &m.fields[j].1,
        None => &s.messages[m.descriptor].fields[fi].default_value,
    }
}

fn json_from_i64(v: i64) -> (n: JsonNumber)
    ensures
        n == json_int(v as int),
{
    if v < 0 {
        JsonNumber::NegInt(v)
    } else {
        JsonNumber::PosInt(v as u64)
    }
}

fn float_to_json(f: &FloatRepr) -> (n: JsonNumber)
    ensures
        n == float_json(f@),
{
    match f {
        FloatRepr::Decoded { json, .. } => *json,
        FloatRepr::FromJson(n) => *n,
    }
}

fn kind_is_timestamp(s: &Schema, k: Kind) -> (r: bool)
    requires
        s.kind_wf(k),
    ensures
        r == is_timestamp_kind(*s, k),
{
    match k {
        Kind::Message(m) => crate::schema::str_eq(
            &s.messages[m].full_name,
            "google.protobuf.Timestamp",
        ),
        _ => false,
    }
}

/// The value field of a map field's entry type.
fn map_value_field_of<'a>(s: &'a Schema, f: &'a FieldDescriptor) -> (r: &'a FieldDescriptor)
    requires
        s.wf(),
        s.kind_wf(f.kind),
    ensures
        *r == map_value_field(*s, *f),
        s.kind_wf(r.kind),
{
    match f.kind {
        Kind::Message(entry) => {
            if s.messages[entry].fields.len() >= 2 {
                assert(s.message_wf(s.messages@[entry as int]));
                assert(s.field_wf(s.messages@[entry as int].fields@[1]));
                &s.messages[entry].fields[1]
            } else {
                f
            }
        },
        _ => f,
    }
}

/// A valid Timestamp: an int64 `seconds` and an int32 `nanos` that name a
/// second of the years 0001 to 9999 (the range of ProtoJSON), with
/// nanoseconds from 0 to 999,999,999.
pub open spec fn valid_timestamp(s: Schema, m: MessageV) -> bool {
    let fields = s.messages@[m.descriptor as int].fields@;
    &&& field_index_spec(fields, "seconds"@) matches Some(si)
    &&& field_index_spec(fields, "nanos"@) matches Some(ni)
    &&& get_field_spec(s, m, si) matches ValueV::I64(secs)
    &&& get_field_spec(s, m, ni) matches ValueV::I32(nanos)
    &&& -62135596800 <= secs <= 253402300799
    &&& 0 <= nanos < 1_000_000_000
}

/// Every Timestamp in value `v` of field `f` is valid. A Timestamp that is
/// the value of a map is written as its fields and needs nothing.
pub open spec fn timestamps_valid(s: Schema, v: ValueV, f: FieldDescriptor) -> bool
    decreases v, 1nat,
{
    if is_timestamp_kind(s, f.kind) && v is Message {
        valid_timestamp(s, v->Message_0)
    } else {
        match v {
            ValueV::Message(m) => fields_valid(s, m.descriptor, m.fields),
            ValueV::List(l) => list_valid(s, l, f),
            ValueV::MapOf(e) => map_valid(s, e, f, map_value_field(s, f)),
            _ => true,
        }
    }
}

/// Every Timestamp in the set fields of a message of type `md` is valid.
pub open spec fn fields_valid(s: Schema, md: nat, f: Seq<(nat, ValueV)>) -> bool
    decreases f, 0nat,
{
    f.len() == 0 || (fields_valid(s, md, f.drop_last()) && timestamps_valid(
        s,
        f.last().1,
        s.messages@[md as int].fields@[f.last().0 as int],
    ))
}

pub open spec fn list_valid(s: Schema, l: Seq<ValueV>, f: FieldDescriptor) -> bool
    decreases l, 0nat,
{
    l.len() == 0 || (list_valid(s, l.drop_last(), f) && timestamps_valid(s, l.last(), f))
}

pub open spec fn map_valid(
    s: Schema,
    e: Seq<(MapKeyV, ValueV)>,
    mf: FieldDescriptor,
    vf: FieldDescriptor,
) -> bool
    decreases e, 0nat,
{
    e.len() == 0 || (map_valid(s, e.drop_last(), mf, vf) && timestamps_valid(
        s,
        e.last().1,
        map_value_writer(e.last().1, mf, vf),
    ))
}

pub proof fn lemma_fields_valid(s: Schema, md: nat, f: Seq<(nat, ValueV)>)
    ensures
        fields_valid(s, md, f) ==> forall|i: int|
            0 <= i < f.len() ==> timestamps_valid(
                s,
                (#[trigger] f[i]).1,
                s.messages@[md as int].fields@[f[i].0 as int],
            ),
    decreases f.len(),
{
    if f.len() > 0 {
        lemma_fields_valid(s, md, f.drop_last());
        if fields_valid(s, md, f) {
            assert forall|i: int| 0 <= i < f.len() implies timestamps_valid(
                s,
                (#[trigger] f[i]).1,
                s.messages@[md as int].fields@[f[i].0 as int],
            ) by {
                if i < f.len() - 1 {
                    assert(f.drop_last()[i] == f[i]);
                }
            }
        }
    }
}

pub proof fn lemma_list_valid(s: Schema, l: Seq<ValueV>, f: FieldDescriptor)
    ensures
        list_valid(s, l, f) ==> forall|i: int| 0 <= i < l.len() ==> timestamps_valid(s, #[trigger] l[i], f),
    decreases l.len(),
{
    if l.len() > 0 {
        lemma_list_valid(s, l.drop_last(), f);
        if list_valid(s, l, f) {
            assert forall|i: int| 0 <= i < l.len() implies timestamps_valid(s, #[trigger] l[i], f) by {
                if i < l.len() - 1 {
                    assert(l.drop_last()[i] == l[i]);
                }
            }
        }
    }
}

pub proof fn lemma_map_valid(
    s: Schema,
    e: Seq<(MapKeyV, ValueV)>,
    mf: FieldDescriptor,
    vf: FieldDescriptor,
)
    ensures
        map_valid(s, e, mf, vf) ==> forall|i: int|
            0 <= i < e.len() ==> timestamps_valid(
                s,
                (#[trigger] e[i]).1,
                map_value_writer(e[i].1, mf, vf),
            ),
    decreases e.len(),
{
    if e.len() > 0 {
        lemma_map_valid(s, e.drop_last(), mf, vf);
        if map_valid(s, e, mf, vf) {
            assert forall|i: int| 0 <= i < e.len() implies timestamps_valid(
                s,
                (#[trigger] e[i]).1,
                map_value_writer(e[i].1, mf, vf),
            ) by {
                if i < e.len() - 1 {
                    assert(e.drop_last()[i] == e[i]);
                }
            }
        }
    }
}

/// A Timestamp message as RFC 3339 text; a valid Timestamp is always
/// written.
pub fn timestamp_to_json(s: &Schema, m: &DynamicMessage) -> (r: Result<JsonValue, ProtoDuckError>)
    requires
        s.wf(),
        m.descriptor < s.messages@.len(),
    ensures
        json_result_view(r) == timestamp_to_json_spec(*s, m@),
        valid_timestamp(*s, m@) ==> r is Ok,
{
    let desc = &s.messages[m.descriptor];
    proof {
        lemma_field_index(desc.fields@, "seconds"@);
        lemma_field_index(desc.fields@, "nanos"@);
    }
    let si = match get_field_by_name(desc, "seconds") {
        Some(i) => i,
        None => {
            return Err(field_error("seconds", "Timestamp seconds field", "missing"));
        },
    };
    let ni = match get_field_by_name(desc, "nanos") {
        Some(i) => i,
        None => {
            return Err(field_error("nanos", "Timestamp nanos field", "missing"));
        },
    };
    let secs = match get_field(s, m, si) {
        Value::I64(v) => *v,
        _ => {
            return Err(field_error("seconds", "int64", "invalid descriptor"));
        },
    };
    let nanos = match get_field(s, m, ni) {
        Value::I32(v) => *v,
        _ => {
            return Err(field_error("nanos", "int32", "invalid descriptor"));
        },
    };
    assert(nanos < 0 ==> (nanos as u32) >= 2_000_000_000u32) by (bit_vector);
    match format_rfc3339(secs, nanos as u32) {
        Some(t) => Ok(JsonValue::String(t)),
        None => {
            let st = format_signed(secs);
            let nt = format_signed(nanos as i64);
            let actual = cat5("seconds=", st.as_str(), ", nanos=", nt.as_str(), "");
            assert(actual@ =~= "seconds="@ + int_text(secs as int) + ", nanos="@ + int_text(
                nanos as int,
            )) by {
                reveal_strlit("");
            }
            Err(
                ProtoDuckError::InvalidFieldValue {
                    field: owned("timestamp"),
                    expected: owned("valid protobuf Timestamp"),
                    actual,
                },
            )
        },
    }
}

/// A field value as JSON; `f` is the field it belongs to.
#[verifier::loop_isolation(false)]
pub fn value_to_json(s: &Schema, v: &Value, f: &FieldDescriptor) -> (r: Result<
    JsonValue,
    ProtoDuckError,
>)
    requires
        s.wf(),
        s.kind_wf(f.kind),
        value_ok(*s, v@),
    ensures
        json_result_view(r) == value_to_json_spec(*s, v@, *f),
        timestamps_valid(*s, v@, *f) ==> r is Ok,
    decreases v,
{
    if kind_is_timestamp(s, f.kind) {
        if let Value::Message(m) = v {
            assert(v@ == ValueV::Message(m@));
            assert(message_ok(*s, m@));
            assert(m@.descriptor == m.descriptor as nat);
            return timestamp_to_json(s, m);
        }
    }
    match v {
        Value::Bool(b) => Ok(JsonValue::Bool(*b)),
        Value::I32(x) => Ok(JsonValue::Number(json_from_i64(*x as i64))),
        Value::I64(x) => Ok(JsonValue::Number(json_from_i64(*x))),
        Value::U32(x) => Ok(JsonValue::Number(JsonNumber::PosInt(*x as u64))),
        Value::U64(x) => Ok(JsonValue::Number(JsonNumber::PosInt(*x))),
        Value::F32(x) => Ok(JsonValue::Number(float_to_json(x))),
        Value::F64(x) => Ok(JsonValue::Number(float_to_json(x))),
        Value::String(t) => Ok(JsonValue::String(t.clone())),
        Value::Bytes(b) => Ok(JsonValue::String(base64_encode(b))),
        Value::EnumNumber(n) => {
            if let Kind::Enum(e) = f.kind {
                if let Some(name) = enum_name(&s.enums[e].values, *n) {
                    return Ok(JsonValue::String(name));
                }
            }
            Ok(JsonValue::Number(json_from_i64(*n as i64)))
        },
        Value::Message(m) => fields_to_json(s, m),
        Value::List(items) => {
            let ghost lv = crate::value::value_seq_view(items@);
            proof {
                crate::value::lemma_value_seq_view(items@);
            }
            let mut out: Vec<JsonValue> = Vec::new();
            let mut i: usize = 0;
            assert(lv.subrange(0, 0) =~= Seq::<ValueV>::empty());
            while i < items.len()
                invariant
                    i <= items@.len(),
                    list_json_spec(*s, lv.subrange(0, i as int), *f) == Ok::<
                        Seq<JsonV>,
                        ErrorV,
                    >(json_seq_view(out@)),
                decreases items@.len() - i,
            {
                assert(decreases_to!(*items => items@[i as int]));
                assert(lv.subrange(0, i + 1).drop_last() =~= lv.subrange(0, i as int));
                proof {
                    crate::schema::lemma_seq_ok(*s, lv);
                }
                assert(value_ok(*s, lv[i as int]));
                let j = match value_to_json(s, &items[i], f) {
                    Ok(j) => j,
                    Err(e) => {
                        proof {
                            lemma_list_json_err(*s, lv, *f, i + 1);
                            lemma_list_valid(*s, lv, *f);
                        }
                        return Err(e);
                    },
                };
                let ghost before = out@;
                out.push(j);
                assert(out@.drop_last() =~= before);
                i = i + 1;
            }
            assert(lv.subrange(0, lv.len() as int) =~= lv);
            Ok(JsonValue::Array(out))
        },
        Value::MapOf(entries) => {
            let vf = map_value_field_of(s, f);
            let ghost ev = crate::value::map_entries_view(entries@);
            proof {
                crate::value::lemma_map_entries_view(entries@);
            }
            let mut out: Vec<(String, JsonValue)> = Vec::new();
            let mut i: usize = 0;
            assert(ev.subrange(0, 0) =~= Seq::<(MapKeyV, ValueV)>::empty());
            while i < entries.len()
                invariant
                    i <= entries@.len(),
                    entries_json_spec(*s, ev.subrange(0, i as int), *f, *vf) == Ok::<
                        Seq<(Seq<char>, JsonV)>,
                        ErrorV,
                    >(json_entries_view(out@)),
                decreases entries@.len() - i,
            {
                assert(decreases_to!(*entries => entries@[i as int]));
                assert(decreases_to!(entries@[i as int] => entries@[i as int].1));
                assert(ev.subrange(0, i + 1).drop_last() =~= ev.subrange(0, i as int));
                proof {
                    crate::schema::lemma_entries_ok(*s, ev);
                }
                assert(value_ok(*s, ev[i as int].1));
                let writer = match &entries[i].1 {
                    Value::Message(_) => f,
                    _ => vf,
                };
                let j = match value_to_json(s, &entries[i].1, writer) {
                    Ok(j) => j,
                    Err(e) => {
                        proof {
                            lemma_entries_json_err(*s, ev, *f, *vf, i + 1);
                            lemma_map_valid(*s, ev, *f, *vf);
                            assert(*writer == map_value_writer(ev[i as int].1, *f, *vf));
                        }
                        return Err(e);
                    },
                };
                let key = map_key_to_string(&entries[i].0);
                let ghost before = out@;
                out.push((key, j));
                assert(out@.drop_last() =~= before);
                i = i + 1;
            }
            assert(ev.subrange(0, ev.len() as int) =~= ev);
            Ok(JsonValue::Object(out))
        },
    }
}

/// A message as a JSON object of its fields.
#[verifier::loop_isolation(false)]
fn fields_to_json(s: &Schema, m: &DynamicMessage) -> (r: Result<JsonValue, ProtoDuckError>)
    requires
        s.wf(),
        message_ok(*s, m@),
    ensures
        json_result_view(r) == (match fields_json_spec(
            *s,
            m@,
            s.messages@[m.descriptor as int].fields@.len(),
        ) {
            Ok(entries) => Ok(JsonV::Object(entries)),
            Err(e) => Err(e),
        }),
        fields_valid(*s, m.descriptor as nat, m@.fields) ==> r is Ok,
    decreases m,
{
    let desc = &s.messages[m.descriptor];
    let n = desc.fields.len();
    let ghost fv = crate::value::field_entries_view(m.fields@);
    proof {
        crate::value::lemma_field_entries_view(m.fields@);
    }
    let mut out: Vec<(String, JsonValue)> = Vec::new();
    let mut k: usize = 0;
    while k < n
        invariant
            k <= n,
            n == s.messages@[m.descriptor as int].fields@.len(),
            fields_json_spec(*s, m@, k as nat) == Ok::<Seq<(Seq<char>, JsonV)>, ErrorV>(
                json_entries_view(out@),
            ),
        decreases n - k,
    {
        let f = &desc.fields[k];
        assert(m@.fields == fv);
        assert(((k + 1) as nat - 1) as nat == k as nat);
        assert(s.message_wf(s.messages@[m.descriptor as int]));
        assert(s.field_wf(desc.fields@[k as int]));
        let ghost before = out@;
        match find_entry(&m.fields, k) {
            Some(j) => {
                proof {
                    lemma_entry_index(fv, k as nat);
                }
                assert(decreases_to!(*m => m.fields));
                assert(decreases_to!(m.fields => m.fields@[j as int]));
                assert(decreases_to!(m.fields@[j as int] => m.fields@[j as int].1));
                proof {
                    crate::schema::lemma_fields_ok(*s, fv);
                }
                assert(value_ok(*s, fv[j as int].1));
                assert(entry_index(m@.fields, k as nat) == Some(j as int));
                assert(fv[j as int].1 == m.fields@[j as int].1@);
                let jv = match value_to_json(s, &m.fields[j].1, f) {
                    Ok(jv) => jv,
                    Err(e) => {
                        proof {
                            lemma_fields_json_err(*s, m@, (k + 1) as nat, n as nat);
                            lemma_fields_valid(*s, m.descriptor as nat, fv);
                        }
                        return Err(e);
                    },
                };
                out.push((f.name.clone(), jv));
                assert(out@.drop_last() =~= before);
                assert(json_entries_view(out@) == json_entries_view(before).push((f.name@, jv@)));
                assert(fields_json_spec(*s, m@, (k + 1) as nat) == Ok::<
                    Seq<(Seq<char>, JsonV)>,
                    ErrorV,
                >(json_entries_view(out@)));
            },
            None => {
                assert(entry_index(m@.fields, k as nat) is None);
                if f.is_list {
                    let empty: Vec<JsonValue> = Vec::new();
                    assert(json_view(JsonValue::Array(empty)) == JsonV::Array(Seq::empty()));
                    out.push((f.name.clone(), JsonValue::Array(empty)));
                    assert(out@.drop_last() =~= before);
                } else if f.is_map {
                    let empty: Vec<(String, JsonValue)> = Vec::new();
                    assert(json_view(JsonValue::Object(empty)) == JsonV::Object(Seq::empty()));
                    out.push((f.name.clone(), JsonValue::Object(empty)));
                    assert(out@.drop_last() =~= before);
                }
            },
        }
        proof {
            if out@.len() > before.len() {
                assert(out@.drop_last() =~= before);
            } else {
                assert(out@ =~= before);
            }
        }
        k = k + 1;
    }
    Ok(JsonValue::Object(out))
}

/// A decoded message as a JSON object: every set field under its name, every
/// unset list as `[]`, every unset map as `{}`. A message whose Timestamps
/// are all valid is always written: booleans, integers, floats, strings,
/// bytes, enum numbers with or without a name, sub-messages, lists and maps
/// never fail.
pub fn message_to_json(s: &Schema, m: &DynamicMessage) -> (r: Result<JsonValue, ProtoDuckError>)
    requires
        s.wf(),
        message_ok(*s, m@),
    ensures
        json_result_view(r) == message_to_json_spec(*s, m@),
        fields_valid(*s, m.descriptor as nat, m@.fields) ==> r is Ok,
{
    fields_to_json(s, m)
}

} // verus!
