//! Values of protobuf fields and dynamic messages, as plain data.

use vstd::prelude::*;

use crate::json::JsonNumber;

verus! {

/// A key of a protobuf map.
#[derive(Debug, PartialEq)]
pub enum MapKey {
    Bool(bool),
    I32(i32),
    I64(i64),
    U32(u32),
    U64(u64),
    String(String),
}

pub enum MapKeyV {
    Bool(bool),
    I32(i32),
    I64(i64),
    U32(u32),
    U64(u64),
    Str(Seq<char>),
}

impl View for MapKey {
    type V = MapKeyV;

    open spec fn view(&self) -> MapKeyV {
        match self {
            MapKey::Bool(b) => MapKeyV::Bool(*b),
            MapKey::I32(v) => MapKeyV::I32(*v),
            MapKey::I64(v) => MapKeyV::I64(*v),
            MapKey::U32(v) => MapKeyV::U32(*v),
            MapKey::U64(v) => MapKeyV::U64(*v),
            MapKey::String(s) => MapKeyV::Str(s@),
        }
    }
}

/// What stands for a floating-point value. A value read from a decoded
/// message carries its bit pattern together with its JSON number and its
/// `to_string` text; a value built from JSON carries the JSON number that it
/// is read from.
#[derive(Debug, PartialEq)]
pub enum FloatRepr {
    Decoded { bits: u64, json: JsonNumber, text: String },
    FromJson(JsonNumber),
}

pub enum FloatReprV {
    Decoded { bits: u64, json: JsonNumber, text: Seq<char> },
    FromJson(JsonNumber),
}

impl View for FloatRepr {
    type V = FloatReprV;

    open spec fn view(&self) -> FloatReprV {
        match self {
            FloatRepr::Decoded { bits, json, text } => FloatReprV::Decoded {
                bits: *bits,
                json: *json,
                text: text@,
            },
            FloatRepr::FromJson(n) => FloatReprV::FromJson(*n),
        }
    }
}

/// The value of a protobuf field.
#[derive(Debug, PartialEq)]
pub enum Value {
    Bool(bool),
    I32(i32),
    I64(i64),
    U32(u32),
    U64(u64),
    F32(FloatRepr),
    F64(FloatRepr),
    String(String),
    Bytes(Vec<u8>),
    EnumNumber(i32),
    Message(DynamicMessage),
    List(Vec<Value>),
    MapOf(Vec<(MapKey, Value)>),
}

/// A message of the type `descriptor` (an index into the schema's messages),
/// with the fields that are set, each by its index in that type's fields.
#[derive(Debug, PartialEq)]
pub struct DynamicMessage {
    pub descriptor: usize,
    pub fields: Vec<(usize, Value)>,
}

pub enum ValueV {
    Bool(bool),
    I32(i32),
    I64(i64),
    U32(u32),
    U64(u64),
    F32(FloatReprV),
    F64(FloatReprV),
    Str(Seq<char>),
    Bytes(Seq<u8>),
    EnumNumber(i32),
    Message(MessageV),
    List(Seq<ValueV>),
    MapOf(Seq<(MapKeyV, ValueV)>),
}

pub struct MessageV {
    pub descriptor: nat,
    pub fields: Seq<(nat, ValueV)>,
}

pub open spec fn value_view(v: Value) -> ValueV
    decreases v,
{
    match v {
        Value::Bool(b) => ValueV::Bool(b),
        Value::I32(x) => ValueV::I32(x),
        Value::I64(x) => ValueV::I64(x),
        Value::U32(x) => ValueV::U32(x),
        Value::U64(x) => ValueV::U64(x),
        Value::F32(f) => ValueV::F32(f@),
        Value::F64(f) => ValueV::F64(f@),
        Value::String(s) => ValueV::Str(s@),
        Value::Bytes(b) => ValueV::Bytes(b@),
        Value::EnumNumber(n) => ValueV::EnumNumber(n),
        Value::Message(m) => ValueV::Message(message_view(m)),
        Value::List(items) => ValueV::List(value_seq_view(items@)),
        Value::MapOf(entries) => ValueV::MapOf(map_entries_view(entries@)),
    }
}

pub open spec fn message_view(m: DynamicMessage) -> MessageV
    decreases m,
{
    MessageV { descriptor: m.descriptor as nat, fields: field_entries_view(m.fields@) }
}

pub open spec fn value_seq_view(s: Seq<Value>) -> Seq<ValueV>
    decreases s,
{
    if s.len() == 0 {
        Seq::empty()
    } else {
        value_seq_view(s.drop_last()).push(value_view(s.last()))
    }
}

pub open spec fn map_entries_view(s: Seq<(MapKey, Value)>) -> Seq<(MapKeyV, ValueV)>
    decreases s,
{
    if s.len() == 0 {
        Seq::empty()
    } else {
        map_entries_view(s.drop_last()).push((s.last().0@, value_view(s.last().1)))
    }
}

pub open spec fn field_entries_view(s: Seq<(usize, Value)>) -> Seq<(nat, ValueV)>
    decreases s,
{
    if s.len() == 0 {
        Seq::empty()
    } else {
        field_entries_view(s.drop_last()).push((s.last().0 as nat, value_view(s.last().1)))
    }
}

impl View for Value {
    type V = ValueV;

    open spec fn view(&self) -> ValueV {
        value_view(*self)
    }
}

impl View for DynamicMessage {
    type V = MessageV;

    open spec fn view(&self) -> MessageV {
        message_view(*self)
    }
}

} // verus!

verus! {

pub fn clone_map_key(k: &MapKey) -> (r: MapKey)
    ensures
        r@ == k@,
{
    match k {
        MapKey::Bool(b) => MapKey::Bool(*b),
        MapKey::I32(v) => MapKey::I32(*v),
        MapKey::I64(v) => MapKey::I64(*v),
        MapKey::U32(v) => MapKey::U32(*v),
        MapKey::U64(v) => MapKey::U64(*v),
        MapKey::String(s) => MapKey::String(s.clone()),
    }
}

pub fn clone_float(f: &FloatRepr) -> (r: FloatRepr)
    ensures
        r@ == f@,
{
    match f {
        FloatRepr::Decoded { bits, json, text } => FloatRepr::Decoded {
            bits: *bits,
            json: *json,
            text: text.clone(),
        },
        FloatRepr::FromJson(n) => FloatRepr::FromJson(*n),
    }
}

pub fn clone_bytes(b: &Vec<u8>) -> (r: Vec<u8>)
    ensures
        r@ == b@,
{
    let mut r: Vec<u8> = Vec::new();
    let mut i: usize = 0;
    while i < b.len()
        invariant
            i <= b@.len(),
            r@ == b@.subrange(0, i as int),
        decreases b@.len() - i,
    {
        r.push(b[i]);
        i = i + 1;
        assert(r@ =~= b@.subrange(0, i as int));
    }
    assert(r@ =~= b@);
    r
}

/// A copy of a value.
#[verifier::loop_isolation(false)]
pub fn clone_value(v: &Value) -> (r: Value)
    ensures
        r@ == v@,
    decreases v,
{
    match v {
        Value::Bool(b) => Value::Bool(*b),
        Value::I32(x) => Value::I32(*x),
        Value::I64(x) => Value::I64(*x),
        Value::U32(x) => Value::U32(*x),
        Value::U64(x) => Value::U64(*x),
        Value::F32(f) => Value::F32(clone_float(f)),
        Value::F64(f) => Value::F64(clone_float(f)),
        Value::String(s) => Value::String(s.clone()),
        Value::Bytes(b) => Value::Bytes(clone_bytes(b)),
        Value::EnumNumber(n) => Value::EnumNumber(*n),
        Value::Message(m) => Value::Message(clone_message(m)),
        Value::List(items) => {
            let mut r: Vec<Value> = Vec::new();
            let mut i: usize = 0;
            while i < items.len()
                invariant
                    i <= items@.len(),
                    value_seq_view(r@) == value_seq_view(items@.subrange(0, i as int)),
                decreases items@.len() - i,
            {
                assert(decreases_to!(*items => items@[i as int]));
                let c = clone_value(&items[i]);
                let ghost before = r@;
                r.push(c);
                assert(r@.drop_last() =~= before);
                assert(items@.subrange(0, i + 1).drop_last() =~= items@.subrange(0, i as int));
                i = i + 1;
            }
            assert(items@.subrange(0, items@.len() as int) =~= items@);
            Value::List(r)
        },
        Value::MapOf(entries) => {
            let mut r: Vec<(MapKey, Value)> = Vec::new();
            let mut i: usize = 0;
            while i < entries.len()
                invariant
                    i <= entries@.len(),
                    map_entries_view(r@) == map_entries_view(entries@.subrange(0, i as int)),
                decreases entries@.len() - i,
            {
                assert(decreases_to!(*entries => entries@[i as int]));
                assert(decreases_to!(entries@[i as int] => entries@[i as int].1));
                let k = clone_map_key(&entries[i].0);
                let c = clone_value(&entries[i].1);
                let ghost before = r@;
                r.push((k, c));
                assert(r@.drop_last() =~= before);
                assert(entries@.subrange(0, i + 1).drop_last() =~= entries@.subrange(0, i as int));
                i = i + 1;
            }
            assert(entries@.subrange(0, entries@.len() as int) =~= entries@);
            Value::MapOf(r)
        },
    }
}

pub fn clone_message(m: &DynamicMessage) -> (r: DynamicMessage)
    ensures
        r@ == m@,
    decreases m,
{
    let mut r: Vec<(usize, Value)> = Vec::new();
    let mut i: usize = 0;
    while i < m.fields.len()
        invariant
            i <= m.fields@.len(),
            field_entries_view(r@) == field_entries_view(m.fields@.subrange(0, i as int)),
        decreases m.fields@.len() - i,
    {
        assert(decreases_to!(m => m.fields@[i as int].1));
        let c = clone_value(&m.fields[i].1);
        let ghost before = r@;
        r.push((m.fields[i].0, c));
        assert(r@.drop_last() =~= before);
        assert(m.fields@.subrange(0, i + 1).drop_last() =~= m.fields@.subrange(0, i as int));
        i = i + 1;
    }
    assert(m.fields@.subrange(0, m.fields@.len() as int) =~= m.fields@);
    DynamicMessage { descriptor: m.descriptor, fields: r }
}

} // verus!

verus! {

pub proof fn lemma_field_entries_view(s: Seq<(usize, Value)>)
    ensures
        field_entries_view(s).len() == s.len(),
        forall|k: int|
            0 <= k < s.len() ==> #[trigger] field_entries_view(s)[k] == (
                s[k].0 as nat,
                value_view(s[k].1),
            ),
    decreases s.len(),
{
    if s.len() > 0 {
        lemma_field_entries_view(s.drop_last());
        assert forall|k: int| 0 <= k < s.len() implies #[trigger] field_entries_view(s)[k] == (
            s[k].0 as nat,
            value_view(s[k].1),
        ) by {
            if k < s.len() - 1 {
                assert(s.drop_last()[k] == s[k]);
            }
        }
    }
}

pub proof fn lemma_value_seq_view(s: Seq<Value>)
    ensures
        value_seq_view(s).len() == s.len(),
        forall|k: int| 0 <= k < s.len() ==> #[trigger] value_seq_view(s)[k] == value_view(s[k]),
    decreases s.len(),
{
    if s.len() > 0 {
        lemma_value_seq_view(s.drop_last());
        assert forall|k: int| 0 <= k < s.len() implies #[trigger] value_seq_view(s)[k]
            == value_view(s[k]) by {
            if k < s.len() - 1 {
                assert(s.drop_last()[k] == s[k]);
            }
        }
    }
}

pub proof fn lemma_map_entries_view(s: Seq<(MapKey, Value)>)
    ensures
        map_entries_view(s).len() == s.len(),
        forall|k: int|
            0 <= k < s.len() ==> #[trigger] map_entries_view(s)[k] == (s[k].0@, value_view(s[k].1)),
    decreases s.len(),
{
    if s.len() > 0 {
        lemma_map_entries_view(s.drop_last());
        assert forall|k: int| 0 <= k < s.len() implies #[trigger] map_entries_view(s)[k] == (
            s[k].0@,
            value_view(s[k].1),
        ) by {
            if k < s.len() - 1 {
                assert(s.drop_last()[k] == s[k]);
            }
        }
    }
}

} // verus!
