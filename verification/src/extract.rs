//! Field extraction by path: `proto_get(data, type, 'orders[0].items[1].name')`.

use vstd::prelude::*;

use crate::error::{ErrorV, ProtoDuckError};
use crate::json::{JsonV, JsonValue};
use crate::numeric::{
    bool_text, chars_of, format_bool, format_signed, format_unsigned, int_text, parse_bool,
    parse_bool_spec, parse_int_spec, parse_signed, parse_unsigned,
};
use crate::path::{parse_field_path, parse_path_spec, PathPart, PathPartV};
use crate::schema::{
    field_index_spec, get_field_by_name, lemma_field_index, message_ok, value_ok, Kind, Schema,
};
use crate::text::{cat3, cat5, owned};
use crate::to_json::{
    enum_name, enum_name_spec, get_field, get_field_spec, map_key_text, message_to_json,
    message_to_json_spec,
};
use crate::value::{
    clone_value, DynamicMessage, FloatRepr, FloatReprV, MapKey, MapKeyV, MessageV, Value, ValueV,
};
use crate::external::base64_encode;

verus! {

/// Name of a field type, as error texts write it.
pub open spec fn kind_name_spec(k: Kind) -> Seq<char> {
    match k {
        Kind::Double => "double"@,
        Kind::Float => "float"@,
        Kind::Int64 => "int64"@,
        Kind::Uint64 => "uint64"@,
        Kind::Int32 => "int32"@,
        Kind::Fixed64 => "fixed64"@,
        Kind::Fixed32 => "fixed32"@,
        Kind::Bool => "bool"@,
        Kind::String => "string"@,
        Kind::Bytes => "bytes"@,
        Kind::Uint32 => "uint32"@,
        Kind::Sfixed32 => "sfixed32"@,
        Kind::Sfixed64 => "sfixed64"@,
        Kind::Sint32 => "sint32"@,
        Kind::Sint64 => "sint64"@,
        Kind::Enum(_) => "enum"@,
        Kind::Message(_) => "message"@,
    }
}

pub open spec fn path_err(msg: Seq<char>) -> ErrorV {
    ErrorV::InvalidFieldPath(msg)
}

/// A map key written in a path, read as the map's key type.
pub open spec fn parse_map_key_spec(key: Seq<char>, key_kind: Option<Kind>, path: Seq<char>) -> Result<
    MapKeyV,
    ErrorV,
> {
    let bad = path_err(
        "Map key '"@ + key + "' cannot be parsed as "@ + kind_name_spec(key_kind->0) + " in '"@
            + path + "'"@,
    );
    match key_kind {
        None => Err(
            path_err(
                "Cannot resolve map key '"@ + key + "' without map key type metadata in '"@ + path
                    + "'"@,
            ),
        ),
        Some(k) => match k {
            Kind::Bool => match parse_bool_spec(key) {
                Some(b) => Ok(MapKeyV::Bool(b)),
                None => Err(bad),
            },
            Kind::Int32 | Kind::Sint32 | Kind::Sfixed32 => match parse_int_spec(
                key,
                i32::MIN as int,
                i32::MAX as int,
            ) {
                Some(v) => Ok(MapKeyV::I32(v as i32)),
                None => Err(bad),
            },
            Kind::Int64 | Kind::Sint64 | Kind::Sfixed64 => match parse_int_spec(
                key,
                i64::MIN as int,
                i64::MAX as int,
            ) {
                Some(v) => Ok(MapKeyV::I64(v as i64)),
                None => Err(bad),
            },
            Kind::Uint32 | Kind::Fixed32 => match parse_int_spec(key, 0, u32::MAX as int) {
                Some(v) => Ok(MapKeyV::U32(v as u32)),
                None => Err(bad),
            },
            Kind::Uint64 | Kind::Fixed64 => match parse_int_spec(key, 0, u64::MAX as int) {
                Some(v) => Ok(MapKeyV::U64(v as u64)),
                None => Err(bad),
            },
            Kind::String => Ok(MapKeyV::Str(key)),
            _ => Err(
                path_err(
                    "Unsupported map key type for '"@ + key + "' in '"@ + path + "'"@,
                ),
            ),
        },
    }
}

/// Position of the first entry with key `k`.
pub open spec fn map_index(e: Seq<(MapKeyV, ValueV)>, k: MapKeyV) -> Option<int>
    decreases e.len(),
{
    if e.len() == 0 {
        None
    } else if e[0].0 == k {
        Some(0)
    } else {
        match map_index(e.drop_first(), k) {
            Some(j) => Some(j + 1),
            None => None,
        }
    }
}

pub proof fn lemma_map_index(e: Seq<(MapKeyV, ValueV)>, k: MapKeyV)
    ensures
        map_index(e, k) matches Some(j) ==> 0 <= j < e.len() && e[j].0 == k,
        map_index(e, k) is None ==> forall|i: int| 0 <= i < e.len() ==> #[trigger] e[i].0 != k,
    decreases e.len(),
{
    if e.len() > 0 {
        lemma_map_index(e.drop_first(), k);
        if map_index(e, k) is None {
            assert forall|i: int| 0 <= i < e.len() implies #[trigger] e[i].0 != k by {
                if i > 0 {
                    assert(e.drop_first()[i - 1] == e[i]);
                }
            }
        }
    }
}

/// Enum numbers read as their names, in the value and in the items of a
/// list or the values of a map, as far as `kind` is an enum type that knows
/// the number.
pub open spec fn resolve_enum_spec(s: Schema, v: ValueV, kind: Kind) -> ValueV
    decreases v,
{
    match v {
        ValueV::EnumNumber(n) => match kind {
            Kind::Enum(e) => match enum_name_spec(s.enums@[e as int].values@, n) {
                Some(name) => ValueV::Str(name),
                None => ValueV::EnumNumber(n),
            },
            _ => ValueV::EnumNumber(n),
        },
        ValueV::List(l) => ValueV::List(resolve_seq_spec(s, l, kind)),
        ValueV::MapOf(e) => ValueV::MapOf(resolve_entries_spec(s, e, kind)),
        other => other,
    }
}

pub open spec fn resolve_seq_spec(s: Schema, l: Seq<ValueV>, kind: Kind) -> Seq<ValueV>
    decreases l,
{
    if l.len() == 0 {
        Seq::empty()
    } else {
        resolve_seq_spec(s, l.drop_last(), kind).push(resolve_enum_spec(s, l.last(), kind))
    }
}

pub open spec fn resolve_entries_spec(s: Schema, e: Seq<(MapKeyV, ValueV)>, kind: Kind) -> Seq<
    (MapKeyV, ValueV),
>
    decreases e,
{
    if e.len() == 0 {
        Seq::empty()
    } else {
        resolve_entries_spec(s, e.drop_last(), kind).push(
            (e.last().0, resolve_enum_spec(s, e.last().1, kind)),
        )
    }
}

/// The key type of a map field, if `fi` is one.
pub open spec fn map_key_kind_spec(s: Schema, m: nat, fi: nat) -> Option<Kind> {
    let f = s.messages@[m as int].fields@[fi as int];
    match f.kind {
        Kind::Message(e) => if f.is_map {
            Some(s.messages@[e as int].fields@[0].kind)
        } else {
            None
        },
        _ => None,
    }
}

/// One step of a path, from a value (and the key type of the map it is, if
/// it came from a map field) to the next.
pub open spec fn apply_part_spec(
    s: Schema,
    v: ValueV,
    key_kind: Option<Kind>,
    part: PathPartV,
    path: Seq<char>,
) -> Result<(ValueV, Option<Kind>), ErrorV> {
    match (v, part) {
        (ValueV::Message(m), PathPartV::Field(name)) => {
            let desc = s.messages@[m.descriptor as int];
            match field_index_spec(desc.fields@, name) {
                None => Err(ErrorV::FieldNotFound(name, desc.full_name@)),
                Some(fi) => Ok(
                    (
                        resolve_enum_spec(s, get_field_spec(s, m, fi), desc.fields@[fi as int].kind),
                        map_key_kind_spec(s, m.descriptor, fi),
                    ),
                ),
            }
        },
        (ValueV::List(l), PathPartV::Index(i)) => if i >= l.len() {
            Err(ErrorV::IndexOutOfBounds(i, path, l.len()))
        } else {
            Ok((l[i as int], None))
        },
        (ValueV::MapOf(e), PathPartV::MapKey(k)) => match parse_map_key_spec(k, key_kind, path) {
            Err(err) => Err(err),
            Ok(key) => match map_index(e, key) {
                Some(j) => Ok((e[j].1, None)),
                None => Err(ErrorV::MapKeyNotFound(k, path)),
            },
        },
        (ValueV::MapOf(e), PathPartV::Index(i)) => {
            let k = int_text(i as int);
            match parse_map_key_spec(k, key_kind, path) {
                Err(err) => Err(err),
                Ok(key) => match map_index(e, key) {
                    Some(j) => Ok((e[j].1, None)),
                    None => Err(ErrorV::MapKeyNotFound(k, path)),
                },
            }
        },
        (ValueV::List(_), PathPartV::Field(f)) => Err(
            path_err(
                "Cannot access field '"@ + f + "' on a repeated value - use an index first"@,
            ),
        ),
        (_, PathPartV::Index(_)) => Err(ErrorV::NotARepeatedField(path)),
        (_, PathPartV::MapKey(k)) => Err(
            path_err("Cannot access map key '"@ + k + "' on non-map value"@),
        ),
        (_, PathPartV::Field(f)) => Err(
            path_err("Cannot access field '"@ + f + "' on non-message value"@),
        ),
    }
}

/// The value reached from `start` by the first `k` parts of a path.
pub open spec fn navigate_spec(
    s: Schema,
    start: ValueV,
    parts: Seq<PathPartV>,
    k: nat,
    path: Seq<char>,
) -> Result<(ValueV, Option<Kind>), ErrorV>
    decreases k,
{
    if k == 0 {
        Ok((start, None))
    } else {
        match navigate_spec(s, start, parts, (k - 1) as nat, path) {
            Err(e) => Err(e),
            Ok((v, kk)) => apply_part_spec(s, v, kk, parts[k - 1], path),
        }
    }
}

} // verus!

verus! {

/// Name of a field type.
pub fn kind_name(k: Kind) -> (r: &'static str)
    ensures
        r@ == kind_name_spec(k),
{
    match k {
        Kind::Double => "double",
        Kind::Float => "float",
        Kind::Int64 => "int64",
        Kind::Uint64 => "uint64",
        Kind::Int32 => "int32",
        Kind::Fixed64 => "fixed64",
        Kind::Fixed32 => "fixed32",
        Kind::Bool => "bool",
        Kind::String => "string",
        Kind::Bytes => "bytes",
        Kind::Uint32 => "uint32",
        Kind::Sfixed32 => "sfixed32",
        Kind::Sfixed64 => "sfixed64",
        Kind::Sint32 => "sint32",
        Kind::Sint64 => "sint64",
        Kind::Enum(_) => "enum",
        Kind::Message(_) => "message",
    }
}

fn invalid_map_key(key: &str, k: Kind, path: &str) -> (e: ProtoDuckError)
    ensures
        e@ == path_err(
            "Map key '"@ + key@ + "' cannot be parsed as "@ + kind_name_spec(k) + " in '"@ + path@
                + "'"@,
        ),
{
    let mut m = owned("Map key '");
    m.append(key);
    m.append("' cannot be parsed as ");
    m.append(kind_name(k));
    m.append(" in '");
    m.append(path);
    m.append("'");
    ProtoDuckError::InvalidFieldPath(m)
}

/// A map key written in a path, read as the map's key type.
pub fn parse_map_key(key: &str, key_kind: Option<Kind>, path: &str) -> (r: Result<
    MapKey,
    ProtoDuckError,
>)
    ensures
        match r {
            Ok(k) => parse_map_key_spec(key@, key_kind, path@) == Ok::<MapKeyV, ErrorV>(k@),
            Err(e) => parse_map_key_spec(key@, key_kind, path@) == Err::<MapKeyV, ErrorV>(e@),
        },
{
    let k = match key_kind {
        None => {
            let mut m = owned("Cannot resolve map key '");
            m.append(key);
            m.append("' without map key type metadata in '");
            m.append(path);
            m.append("'");
            return Err(ProtoDuckError::InvalidFieldPath(m));
        },
        Some(k) => k,
    };
    let chars = chars_of(key);
    match k {
        Kind::Bool => match parse_bool(&chars) {
            Some(b) => Ok(MapKey::Bool(b)),
            None => Err(invalid_map_key(key, k, path)),
        },
        Kind::Int32 | Kind::Sint32 | Kind::Sfixed32 => match parse_signed(
            &chars,
            i32::MIN as i64,
            i32::MAX as i64,
        ) {
            Some(v) => Ok(MapKey::I32(v as i32)),
            None => Err(invalid_map_key(key, k, path)),
        },
        Kind::Int64 | Kind::Sint64 | Kind::Sfixed64 => match parse_signed(
            &chars,
            i64::MIN,
            i64::MAX,
        ) {
            Some(v) => Ok(MapKey::I64(v)),
            None => Err(invalid_map_key(key, k, path)),
        },
        Kind::Uint32 | Kind::Fixed32 => match parse_unsigned(&chars, u32::MAX as u64) {
            Some(v) => Ok(MapKey::U32(v as u32)),
            None => Err(invalid_map_key(key, k, path)),
        },
        Kind::Uint64 | Kind::Fixed64 => match parse_unsigned(&chars, u64::MAX) {
            Some(v) => Ok(MapKey::U64(v)),
            None => Err(invalid_map_key(key, k, path)),
        },
        Kind::String => Ok(MapKey::String(owned(key))),
        _ => {
            let mut m = owned("Unsupported map key type for '");
            m.append(key);
            m.append("' in '");
            m.append(path);
            m.append("'");
            Err(ProtoDuckError::InvalidFieldPath(m))
        },
    }
}

pub fn map_key_eq(a: &MapKey, b: &MapKey) -> (r: bool)
    ensures
        r == (a@ == b@),
{
    match (a, b) {
        (MapKey::Bool(x), MapKey::Bool(y)) => *x == *y,
        (MapKey::I32(x), MapKey::I32(y)) => *x == *y,
        (MapKey::I64(x), MapKey::I64(y)) => *x == *y,
        (MapKey::U32(x), MapKey::U32(y)) => *x == *y,
        (MapKey::U64(x), MapKey::U64(y)) => *x == *y,
        (MapKey::String(x), MapKey::String(y)) => crate::schema::str_eq(x, y.as_str()),
        _ => false,
    }
}

/// `HashMap::get` on the entries of a map value.
pub fn map_find(e: &Vec<(MapKey, Value)>, k: &MapKey) -> (r: Option<usize>)
    ensures
        match r {
            Some(j) => map_index(crate::value::map_entries_view(e@), k@) == Some(j as int),
            None => map_index(crate::value::map_entries_view(e@), k@) is None,
        },
{
    let ghost ev = crate::value::map_entries_view(e@);
    proof {
        crate::value::lemma_map_entries_view(e@);
    }
    let mut i: usize = 0;
    assert(ev.subrange(0, ev.len() as int) =~= ev);
    while i < e.len()
        invariant
            i <= e@.len(),
            ev == crate::value::map_entries_view(e@),
            ev.len() == e@.len(),
            forall|q: int| 0 <= q < e@.len() ==> #[trigger] ev[q].0 == e@[q].0@,
            map_index(ev.subrange(i as int, ev.len() as int), k@) matches Some(j) ==> map_index(
                ev,
                k@,
            ) == Some(j + i),
            map_index(ev.subrange(i as int, ev.len() as int), k@) is None ==> map_index(
                ev,
                k@,
            ) is None,
        decreases e@.len() - i,
    {
        let ghost rest = ev.subrange(i as int, ev.len() as int);
        assert(rest.drop_first() =~= ev.subrange(i + 1, ev.len() as int));
        if map_key_eq(&e[i].0, k) {
            assert(rest[0].0 == k@);
            return Some(i);
        }
        i = i + 1;
    }
    assert(ev.subrange(ev.len() as int, ev.len() as int) =~= Seq::<(MapKeyV, ValueV)>::empty());
    None
}

pub proof fn lemma_resolve_seq(s: Schema, l: Seq<ValueV>, kind: Kind)
    ensures
        resolve_seq_spec(s, l, kind).len() == l.len(),
        forall|i: int|
            0 <= i < l.len() ==> #[trigger] resolve_seq_spec(s, l, kind)[i] == resolve_enum_spec(
                s,
                l[i],
                kind,
            ),
    decreases l.len(),
{
    if l.len() > 0 {
        lemma_resolve_seq(s, l.drop_last(), kind);
        assert forall|i: int| 0 <= i < l.len() implies #[trigger] resolve_seq_spec(s, l, kind)[i]
            == resolve_enum_spec(s, l[i], kind) by {
            if i < l.len() - 1 {
                assert(l.drop_last()[i] == l[i]);
            }
        }
    }
}

pub proof fn lemma_resolve_entries(s: Schema, e: Seq<(MapKeyV, ValueV)>, kind: Kind)
    ensures
        resolve_entries_spec(s, e, kind).len() == e.len(),
        forall|i: int|
            0 <= i < e.len() ==> #[trigger] resolve_entries_spec(s, e, kind)[i] == (
                e[i].0,
                resolve_enum_spec(s, e[i].1, kind),
            ),
    decreases e.len(),
{
    if e.len() > 0 {
        lemma_resolve_entries(s, e.drop_last(), kind);
        assert forall|i: int| 0 <= i < e.len() implies #[trigger] resolve_entries_spec(
            s,
            e,
            kind,
        )[i] == (e[i].0, resolve_enum_spec(s, e[i].1, kind)) by {
            if i < e.len() - 1 {
                assert(e.drop_last()[i] == e[i]);
            }
        }
    }
}

/// Reading enum numbers as names keeps a value fitting the schema.
pub proof fn lemma_resolve_ok(s: Schema, v: ValueV, kind: Kind)
    requires
        value_ok(s, v),
    ensures
        value_ok(s, resolve_enum_spec(s, v, kind)),
    decreases v,
{
    match v {
        ValueV::List(l) => {
            lemma_resolve_seq(s, l, kind);
            crate::schema::lemma_seq_ok(s, l);
            crate::schema::lemma_seq_ok(s, resolve_seq_spec(s, l, kind));
            assert forall|i: int| 0 <= i < l.len() implies value_ok(
                s,
                #[trigger] resolve_seq_spec(s, l, kind)[i],
            ) by {
                assert(decreases_to!(l => l[i]));
                lemma_resolve_ok(s, l[i], kind);
            }
        },
        ValueV::MapOf(e) => {
            lemma_resolve_entries(s, e, kind);
            crate::schema::lemma_entries_ok(s, e);
            crate::schema::lemma_entries_ok(s, resolve_entries_spec(s, e, kind));
            assert forall|i: int| 0 <= i < e.len() implies value_ok(
                s,
                #[trigger] resolve_entries_spec(s, e, kind)[i].1,
            ) by {
                assert(decreases_to!(e => e[i]));
                assert(decreases_to!(e[i] => e[i].1));
                lemma_resolve_ok(s, e[i].1, kind);
            }
        },
        _ => {},
    }
}

/// Enum numbers read as their names.
#[verifier::loop_isolation(false)]
pub fn resolve_enum_names(s: &Schema, v: &Value, kind: Kind) -> (r: Value)
    requires
        s.kind_wf(kind),
    ensures
        r@ == resolve_enum_spec(*s, v@, kind),
    decreases v,
{
    match v {
        Value::EnumNumber(n) => {
            if let Kind::Enum(e) = kind {
                if let Some(name) = enum_name(&s.enums[e].values, *n) {
                    return Value::String(name);
                }
            }
            Value::EnumNumber(*n)
        },
        Value::List(items) => {
            let ghost lv = crate::value::value_seq_view(items@);
            proof {
                crate::value::lemma_value_seq_view(items@);
            }
            let mut out: Vec<Value> = Vec::new();
            let mut i: usize = 0;
            assert(lv.subrange(0, 0) =~= Seq::<ValueV>::empty());
            while i < items.len()
                invariant
                    i <= items@.len(),
                    crate::value::value_seq_view(out@) == resolve_seq_spec(
                        *s,
                        lv.subrange(0, i as int),
                        kind,
                    ),
                decreases items@.len() - i,
            {
                assert(decreases_to!(*items => items@[i as int]));
                assert(lv.subrange(0, i + 1).drop_last() =~= lv.subrange(0, i as int));
                let c = resolve_enum_names(s, &items[i], kind);
                let ghost before = out@;
                out.push(c);
                assert(out@.drop_last() =~= before);
                i = i + 1;
            }
            assert(lv.subrange(0, lv.len() as int) =~= lv);
            Value::List(out)
        },
        Value::MapOf(entries) => {
            let ghost ev = crate::value::map_entries_view(entries@);
            proof {
                crate::value::lemma_map_entries_view(entries@);
            }
            let mut out: Vec<(MapKey, Value)> = Vec::new();
            let mut i: usize = 0;
            assert(ev.subrange(0, 0) =~= Seq::<(MapKeyV, ValueV)>::empty());
            while i < entries.len()
                invariant
                    i <= entries@.len(),
                    crate::value::map_entries_view(out@) == resolve_entries_spec(
                        *s,
                        ev.subrange(0, i as int),
                        kind,
                    ),
                decreases entries@.len() - i,
            {
                assert(decreases_to!(*entries => entries@[i as int]));
                assert(decreases_to!(entries@[i as int] => entries@[i as int].1));
                assert(ev.subrange(0, i + 1).drop_last() =~= ev.subrange(0, i as int));
                let c = resolve_enum_names(s, &entries[i].1, kind);
                let k = crate::value::clone_map_key(&entries[i].0);
                let ghost before = out@;
                out.push((k, c));
                assert(out@.drop_last() =~= before);
                i = i + 1;
            }
            assert(ev.subrange(0, ev.len() as int) =~= ev);
            Value::MapOf(out)
        },
        _ => clone_value(v),
    }
}

} // verus!

verus! {

/// A value reached along a path, with the key type of the map it is when it
/// was read from a map field.
#[derive(Debug)]
pub struct PathValue {
    pub value: Value,
    pub map_key_kind: Option<Kind>,
}

impl PathValue {
    /// A value with no map key type.
    pub fn new(value: Value) -> (r: PathValue)
        ensures
            r.value == value,
            r.map_key_kind is None,
    {
        PathValue { value, map_key_kind: None }
    }

    /// A value, with the key type of the map it is, if any.
    pub fn with_map_key(value: Value, map_key_kind: Option<Kind>) -> (r: PathValue)
        ensures
            r.value == value,
            r.map_key_kind == map_key_kind,
    {
        PathValue { value, map_key_kind }
    }
}

/// Reading a field gives a value that fits the schema.
pub proof fn lemma_get_field_ok(s: Schema, m: MessageV, fi: nat)
    requires
        s.wf(),
        message_ok(s, m),
        fi < s.messages@[m.descriptor as int].fields@.len(),
    ensures
        value_ok(s, get_field_spec(s, m, fi)),
{
    crate::to_json::lemma_entry_index(m.fields, fi);
    crate::schema::lemma_fields_ok(s, m.fields);
    assert(s.message_wf(s.messages@[m.descriptor as int]));
    assert(s.field_wf(s.messages@[m.descriptor as int].fields@[fi as int]));
}

/// The key type of map field `fi` of message type `m`, if it is one.
pub fn map_key_kind(s: &Schema, m: usize, fi: usize) -> (r: Option<Kind>)
    requires
        s.wf(),
        m < s.messages@.len(),
        fi < s.messages@[m as int].fields@.len(),
    ensures
        r == map_key_kind_spec(*s, m as nat, fi as nat),
{
    let f = &s.messages[m].fields[fi];
    assert(s.message_wf(s.messages@[m as int]));
    assert(s.field_wf(s.messages@[m as int].fields@[fi as int]));
    match f.kind {
        Kind::Message(e) => {
            if f.is_map {
                assert(s.message_wf(s.messages@[e as int]));
                Some(s.messages[e].fields[0].kind)
            } else {
                None
            }
        },
        _ => None,
    }
}

fn map_lookup(
    s: &Schema,
    e: &Vec<(MapKey, Value)>,
    key: &MapKey,
    shown: String,
    path: &str,
) -> (r: Result<PathValue, ProtoDuckError>)
    requires
        value_ok(*s, ValueV::MapOf(crate::value::map_entries_view(e@))),
    ensures
        match r {
            Ok(nv) => match map_index(crate::value::map_entries_view(e@), key@) {
                Some(j) => nv.value@ == crate::value::map_entries_view(e@)[j].1
                    && nv.map_key_kind is None && value_ok(*s, nv.value@),
                None => false,
            },
            Err(err) => map_index(crate::value::map_entries_view(e@), key@) is None && err@
                == ErrorV::MapKeyNotFound(shown@, path@),
        },
{
    proof {
        crate::value::lemma_map_entries_view(e@);
        lemma_map_index(crate::value::map_entries_view(e@), key@);
    }
    let ghost ev = crate::value::map_entries_view(e@);
    match map_find(e, key) {
        Some(j) => {
            assert(map_index(ev, key@) == Some(j as int));
            assert(0 <= j < ev.len());
            proof {
                crate::schema::lemma_entries_ok(*s, ev);
            }
            assert(ev[j as int].1 == e@[j as int].1@);
            Ok(PathValue::new(clone_value(&e[j].1)))
        },
        None => Err(ProtoDuckError::MapKeyNotFound(shown, owned(path))),
    }
}

/// One step of a path.
pub fn apply_path_part(s: &Schema, pv: PathValue, part: &PathPart, path: &str) -> (r: Result<
    PathValue,
    ProtoDuckError,
>)
    requires
        s.wf(),
        value_ok(*s, pv.value@),
    ensures
        match r {
            Ok(nv) => apply_part_spec(*s, pv.value@, pv.map_key_kind, part@, path@) == Ok::<
                (ValueV, Option<Kind>),
                ErrorV,
            >((nv.value@, nv.map_key_kind)) && value_ok(*s, nv.value@),
            Err(e) => apply_part_spec(*s, pv.value@, pv.map_key_kind, part@, path@) == Err::<
                (ValueV, Option<Kind>),
                ErrorV,
            >(e@),
        },
{
    let PathValue { value, map_key_kind: key_kind } = pv;
    match (&value, part) {
        (Value::Message(msg), PathPart::Field(name)) => {
            assert(value@ == ValueV::Message(msg@));
            assert(message_ok(*s, msg@));
            let desc = &s.messages[msg.descriptor];
            proof {
                lemma_field_index(desc.fields@, name@);
            }
            let fi = match get_field_by_name(desc, name.as_str()) {
                Some(fi) => fi,
                None => {
                    return Err(ProtoDuckError::FieldNotFound(name.clone(), desc.full_name.clone()));
                },
            };
            assert(s.message_wf(s.messages@[msg.descriptor as int]));
            assert(s.field_wf(desc.fields@[fi as int]));
            let raw = get_field(s, msg, fi);
            proof {
                lemma_get_field_ok(*s, msg@, fi as nat);
                lemma_resolve_ok(*s, raw@, desc.fields@[fi as int].kind);
            }
            let resolved = resolve_enum_names(s, raw, desc.fields[fi].kind);
            Ok(PathValue::with_map_key(resolved, map_key_kind(s, msg.descriptor, fi)))
        },
        (Value::List(list), PathPart::Index(idx)) => {
            proof {
                crate::value::lemma_value_seq_view(list@);
            }
            if *idx >= list.len() {
                return Err(ProtoDuckError::IndexOutOfBounds(*idx, owned(path), list.len()));
            }
            proof {
                crate::schema::lemma_seq_ok(*s, crate::value::value_seq_view(list@));
            }
            assert(value_ok(*s, crate::value::value_seq_view(list@)[*idx as int]));
            Ok(PathValue::new(clone_value(&list[*idx])))
        },
        (Value::MapOf(e), PathPart::MapKey(key)) => {
            assert(value@ == ValueV::MapOf(crate::value::map_entries_view(e@)));
            let k = parse_map_key(key.as_str(), key_kind, path)?;
            map_lookup(s, e, &k, key.clone(), path)
        },
        (Value::MapOf(e), PathPart::Index(idx)) => {
            assert(value@ == ValueV::MapOf(crate::value::map_entries_view(e@)));
            let shown = format_unsigned(*idx as u64);
            let k = parse_map_key(shown.as_str(), key_kind, path)?;
            map_lookup(s, e, &k, shown, path)
        },
        (Value::List(_), PathPart::Field(f)) => Err(
            ProtoDuckError::InvalidFieldPath(
                cat3(
                    "Cannot access field '",
                    f.as_str(),
                    "' on a repeated value - use an index first",
                ),
            ),
        ),
        (_, PathPart::Index(_)) => Err(ProtoDuckError::NotARepeatedField(owned(path))),
        (_, PathPart::MapKey(k)) => Err(
            ProtoDuckError::InvalidFieldPath(
                cat3("Cannot access map key '", k.as_str(), "' on non-map value"),
            ),
        ),
        (_, PathPart::Field(f)) => Err(
            ProtoDuckError::InvalidFieldPath(
                cat3("Cannot access field '", f.as_str(), "' on non-message value"),
            ),
        ),
    }
}

} // verus!

verus! {

/// A piece of the text of a field value: plain text, or a JSON document
/// to be written out as compact JSON text in its place.
#[derive(Debug, PartialEq)]
pub enum TextPiece {
    Text(String),
    Json(JsonValue),
}

pub enum PieceV {
    Text(Seq<char>),
    Json(JsonV),
}

impl View for TextPiece {
    type V = PieceV;

    open spec fn view(&self) -> PieceV {
        match self {
            TextPiece::Text(t) => PieceV::Text(t@),
            TextPiece::Json(j) => PieceV::Json(j@),
        }
    }
}

pub open spec fn pieces_view(v: Seq<TextPiece>) -> Seq<PieceV> {
    v.map_values(|p: TextPiece| p@)
}

pub open spec fn float_piece(f: FloatReprV) -> PieceV {
    match f {
        FloatReprV::Decoded { text, .. } => PieceV::Text(text),
        FloatReprV::FromJson(n) => PieceV::Json(JsonV::Number(n)),
    }
}

/// The text of a value, as pieces.
pub open spec fn value_text_spec(s: Schema, v: ValueV) -> Result<Seq<PieceV>, ErrorV>
    decreases v, 0nat,
{
    match v {
        ValueV::Bool(b) => Ok(seq![PieceV::Text(bool_text(b))]),
        ValueV::I32(x) => Ok(seq![PieceV::Text(int_text(x as int))]),
        ValueV::I64(x) => Ok(seq![PieceV::Text(int_text(x as int))]),
        ValueV::U32(x) => Ok(seq![PieceV::Text(int_text(x as int))]),
        ValueV::U64(x) => Ok(seq![PieceV::Text(int_text(x as int))]),
        ValueV::F32(f) => Ok(seq![float_piece(f)]),
        ValueV::F64(f) => Ok(seq![float_piece(f)]),
        ValueV::Str(t) => Ok(seq![PieceV::Text(t)]),
        ValueV::Bytes(b) => Ok(seq![PieceV::Text(crate::external::base64_encode_spec(b))]),
        ValueV::EnumNumber(n) => Ok(seq![PieceV::Text(int_text(n as int))]),
        ValueV::Message(m) => match message_to_json_spec(s, m) {
            Ok(j) => Ok(seq![PieceV::Json(j)]),
            Err(e) => Err(e),
        },
        ValueV::List(l) => match list_text_spec(s, l) {
            Ok(p) => Ok(seq![PieceV::Text("["@)] + p + seq![PieceV::Text("]"@)]),
            Err(e) => Err(e),
        },
        ValueV::MapOf(e) => match entries_text_spec(s, e) {
            Ok(p) => Ok(seq![PieceV::Text("{"@)] + p + seq![PieceV::Text("}"@)]),
            Err(err) => Err(err),
        },
    }
}

/// The texts of the items joined by `, `.
pub open spec fn list_text_spec(s: Schema, l: Seq<ValueV>) -> Result<Seq<PieceV>, ErrorV>
    decreases l, 0nat,
{
    if l.len() == 0 {
        Ok(Seq::empty())
    } else {
        match list_text_spec(s, l.drop_last()) {
            Err(e) => Err(e),
            Ok(p) => match value_text_spec(s, l.last()) {
                Err(e) => Err(e),
                Ok(t) => if l.len() == 1 {
                    Ok(t)
                } else {
                    Ok(p + seq![PieceV::Text(", "@)] + t)
                },
            },
        }
    }
}

/// The entries as `key: value`, joined by `, `.
pub open spec fn entries_text_spec(s: Schema, e: Seq<(MapKeyV, ValueV)>) -> Result<
    Seq<PieceV>,
    ErrorV,
>
    decreases e, 0nat,
{
    if e.len() == 0 {
        Ok(Seq::empty())
    } else {
        match entries_text_spec(s, e.drop_last()) {
            Err(err) => Err(err),
            Ok(p) => match value_text_spec(s, e.last().1) {
                Err(err) => Err(err),
                Ok(t) => {
                    let item = seq![PieceV::Text(map_key_text(e.last().0) + ": "@)] + t;
                    if e.len() == 1 {
                        Ok(item)
                    } else {
                        Ok(p + seq![PieceV::Text(", "@)] + item)
                    }
                },
            },
        }
    }
}

pub proof fn lemma_list_text_err(s: Schema, l: Seq<ValueV>, j: int)
    requires
        0 <= j <= l.len(),
        list_text_spec(s, l.subrange(0, j)) is Err,
    ensures
        list_text_spec(s, l) == list_text_spec(s, l.subrange(0, j)),
    decreases l.len(),
{
    if j == l.len() {
        assert(l.subrange(0, j) =~= l);
    } else {
        assert(l.drop_last().subrange(0, j) =~= l.subrange(0, j));
        lemma_list_text_err(s, l.drop_last(), j);
    }
}

pub proof fn lemma_entries_text_err(s: Schema, e: Seq<(MapKeyV, ValueV)>, j: int)
    requires
        0 <= j <= e.len(),
        entries_text_spec(s, e.subrange(0, j)) is Err,
    ensures
        entries_text_spec(s, e) == entries_text_spec(s, e.subrange(0, j)),
    decreases e.len(),
{
    if j == e.len() {
        assert(e.subrange(0, j) =~= e);
    } else {
        assert(e.drop_last().subrange(0, j) =~= e.subrange(0, j));
        lemma_entries_text_err(s, e.drop_last(), j);
    }
}

pub open spec fn pieces_result_view(r: Result<Vec<TextPiece>, ProtoDuckError>) -> Result<
    Seq<PieceV>,
    ErrorV,
> {
    match r {
        Ok(p) => Ok(pieces_view(p@)),
        Err(e) => Err(e@),
    }
}

fn text_piece(s: &str) -> (r: Vec<TextPiece>)
    ensures
        pieces_view(r@) == seq![PieceV::Text(s@)],
{
    let mut r: Vec<TextPiece> = Vec::new();
    r.push(TextPiece::Text(owned(s)));
    assert(pieces_view(r@) =~= seq![PieceV::Text(s@)]);
    r
}

fn one_piece(p: TextPiece) -> (r: Vec<TextPiece>)
    ensures
        pieces_view(r@) == seq![p@],
{
    let mut r: Vec<TextPiece> = Vec::new();
    r.push(p);
    assert(pieces_view(r@) =~= seq![p@]);
    r
}

fn append_pieces(out: &mut Vec<TextPiece>, more: Vec<TextPiece>)
    ensures
        pieces_view(final(out)@) == pieces_view(old(out)@) + pieces_view(more@),
{
    let mut more = more;
    let ghost mv = pieces_view(more@);
    let ghost start = pieces_view(out@);
    let mut taken: Vec<TextPiece> = Vec::new();
    // Reverse `more` into `taken`, then pop back onto `out` in order.
    while more.len() > 0
        invariant
            pieces_view(more@) + pieces_view(taken@).reverse() == mv,
            pieces_view(out@) == start,
        decreases more@.len(),
    {
        let ghost before_more = more@;
        let ghost before_taken = taken@;
        let p = more.pop().unwrap();
        taken.push(p);
        assert(more@ =~= before_more.drop_last());
        assert(pieces_view(taken@) =~= pieces_view(before_taken).push(p@));
        assert(pieces_view(before_more) =~= pieces_view(more@).push(p@));
        assert(pieces_view(taken@).reverse() =~= seq![p@] + pieces_view(before_taken).reverse());
        assert(pieces_view(more@) + pieces_view(taken@).reverse() =~= pieces_view(before_more)
            + pieces_view(before_taken).reverse());
    }
    assert(pieces_view(more@) =~= Seq::<PieceV>::empty());
    while taken.len() > 0
        invariant
            pieces_view(out@) + pieces_view(taken@).reverse() == start + mv,
        decreases taken@.len(),
    {
        let ghost before_taken = taken@;
        let ghost before_out = out@;
        let p = taken.pop().unwrap();
        out.push(p);
        assert(taken@ =~= before_taken.drop_last());
        assert(pieces_view(before_taken) =~= pieces_view(taken@).push(p@));
        assert(pieces_view(before_taken).reverse() =~= seq![p@] + pieces_view(taken@).reverse());
        assert(pieces_view(out@) =~= pieces_view(before_out).push(p@));
        assert(pieces_view(out@) + pieces_view(taken@).reverse() =~= pieces_view(before_out)
            + pieces_view(before_taken).reverse());
    }
    assert(pieces_view(taken@).reverse() =~= Seq::<PieceV>::empty());
    assert(pieces_view(out@) =~= start + mv);
}

fn float_to_piece(f: &FloatRepr) -> (r: TextPiece)
    ensures
        r@ == float_piece(f@),
{
    match f {
        FloatRepr::Decoded { text, .. } => TextPiece::Text(text.clone()),
        FloatRepr::FromJson(n) => TextPiece::Json(JsonValue::Number(*n)),
    }
}

/// The text of a value, as pieces.
#[verifier::loop_isolation(false)]
pub fn value_to_string(s: &Schema, v: &Value) -> (r: Result<Vec<TextPiece>, ProtoDuckError>)
    requires
        s.wf(),
        value_ok(*s, v@),
    ensures
        pieces_result_view(r) == value_text_spec(*s, v@),
    decreases v,
{
    match v {
        Value::Bool(b) => {
            let t = format_bool(*b);
            Ok(one_piece(TextPiece::Text(t)))
        },
        Value::I32(x) => Ok(one_piece(TextPiece::Text(format_signed(*x as i64)))),
        Value::I64(x) => Ok(one_piece(TextPiece::Text(format_signed(*x)))),
        Value::U32(x) => Ok(one_piece(TextPiece::Text(format_unsigned(*x as u64)))),
        Value::U64(x) => Ok(one_piece(TextPiece::Text(format_unsigned(*x)))),
        Value::F32(f) => Ok(one_piece(float_to_piece(f))),
        Value::F64(f) => Ok(one_piece(float_to_piece(f))),
        Value::String(t) => Ok(one_piece(TextPiece::Text(t.clone()))),
        Value::Bytes(b) => Ok(one_piece(TextPiece::Text(base64_encode(b)))),
        Value::EnumNumber(n) => Ok(one_piece(TextPiece::Text(format_signed(*n as i64)))),
        Value::Message(m) => {
            assert(v@ == ValueV::Message(m@));
            let j = message_to_json(s, m)?;
            Ok(one_piece(TextPiece::Json(j)))
        },
        Value::List(items) => {
            let ghost lv = crate::value::value_seq_view(items@);
            proof {
                crate::value::lemma_value_seq_view(items@);
                crate::schema::lemma_seq_ok(*s, lv);
            }
            let mut out = text_piece("[");
            let ghost open_p = pieces_view(out@);
            let mut i: usize = 0;
            assert(lv.subrange(0, 0) =~= Seq::<ValueV>::empty());
            assert(open_p + Seq::<PieceV>::empty() =~= open_p);
            while i < items.len()
                invariant
                    i <= items@.len(),
                    open_p == seq![PieceV::Text("["@)],
                    list_text_spec(*s, lv.subrange(0, i as int)) matches Ok(p) && pieces_view(out@)
                        == open_p + p,
                decreases items@.len() - i,
            {
                assert(decreases_to!(*items => items@[i as int]));
                assert(lv.subrange(0, i + 1).drop_last() =~= lv.subrange(0, i as int));
                assert(value_ok(*s, lv[i as int]));
                let t = match value_to_string(s, &items[i]) {
                    Ok(t) => t,
                    Err(e) => {
                        proof {
                            lemma_list_text_err(*s, lv, i + 1);
                        }
                        return Err(e);
                    },
                };
                let ghost before = pieces_view(out@);
                if i > 0 {
                    append_pieces(&mut out, text_piece(", "));
                }
                append_pieces(&mut out, t);
                proof {
                    let p = list_text_spec(*s, lv.subrange(0, i as int))->Ok_0;
                    if i == 0 {
                        assert(p =~= Seq::<PieceV>::empty());
                    } else {
                        assert(pieces_view(out@) =~= open_p + (p + seq![PieceV::Text(", "@)]
                            + pieces_view(t@)));
                    }
                }
                i = i + 1;
            }
            assert(lv.subrange(0, lv.len() as int) =~= lv);
            let ghost inner = list_text_spec(*s, lv)->Ok_0;
            append_pieces(&mut out, text_piece("]"));
            assert(pieces_view(out@) =~= seq![PieceV::Text("["@)] + inner + seq![
                PieceV::Text("]"@),
            ]);
            Ok(out)
        },
        Value::MapOf(entries) => {
            let ghost ev = crate::value::map_entries_view(entries@);
            proof {
                crate::value::lemma_map_entries_view(entries@);
                crate::schema::lemma_entries_ok(*s, ev);
            }
            let mut out = text_piece("{");
            let ghost open_p = pieces_view(out@);
            let mut i: usize = 0;
            assert(ev.subrange(0, 0) =~= Seq::<(MapKeyV, ValueV)>::empty());
            assert(open_p + Seq::<PieceV>::empty() =~= open_p);
            while i < entries.len()
                invariant
                    i <= entries@.len(),
                    open_p == seq![PieceV::Text("{"@)],
                    entries_text_spec(*s, ev.subrange(0, i as int)) matches Ok(p) && pieces_view(
                        out@,
                    ) == open_p + p,
                decreases entries@.len() - i,
            {
                assert(decreases_to!(*entries => entries@[i as int]));
                assert(decreases_to!(entries@[i as int] => entries@[i as int].1));
                assert(ev.subrange(0, i + 1).drop_last() =~= ev.subrange(0, i as int));
                assert(value_ok(*s, ev[i as int].1));
                let t = match value_to_string(s, &entries[i].1) {
                    Ok(t) => t,
                    Err(e) => {
                        proof {
                            lemma_entries_text_err(*s, ev, i + 1);
                        }
                        return Err(e);
                    },
                };
                let key = crate::to_json::map_key_to_string(&entries[i].0);
                let head = crate::text::cat2(key.as_str(), ": ");
                let ghost before = pieces_view(out@);
                if i > 0 {
                    append_pieces(&mut out, text_piece(", "));
                }
                append_pieces(&mut out, one_piece(TextPiece::Text(head)));
                append_pieces(&mut out, t);
                proof {
                    let p = entries_text_spec(*s, ev.subrange(0, i as int))->Ok_0;
                    let item = seq![PieceV::Text(map_key_text(ev[i as int].0) + ": "@)]
                        + pieces_view(t@);
                    if i == 0 {
                        assert(p =~= Seq::<PieceV>::empty());
                        assert(pieces_view(out@) =~= open_p + item);
                    } else {
                        assert(pieces_view(out@) =~= open_p + (p + seq![PieceV::Text(", "@)]
                            + item));
                    }
                }
                i = i + 1;
            }
            assert(ev.subrange(0, ev.len() as int) =~= ev);
            let ghost inner = entries_text_spec(*s, ev)->Ok_0;
            append_pieces(&mut out, text_piece("}"));
            assert(pieces_view(out@) =~= seq![PieceV::Text("{"@)] + inner + seq![
                PieceV::Text("}"@),
            ]);
            Ok(out)
        },
    }
}

} // verus!

verus! {

/// The value that a path leads to from a message.
pub open spec fn navigate_to_value_spec(s: Schema, m: MessageV, path: Seq<char>) -> Result<
    ValueV,
    ErrorV,
> {
    match parse_path_spec(path) {
        Err(msg) => Err(ErrorV::InvalidFieldPath(msg)),
        Ok(parts) => match navigate_spec(s, ValueV::Message(m), parts, parts.len(), path) {
            Ok((v, _)) => Ok(v),
            Err(e) => Err(e),
        },
    }
}

/// The text of the field that a path leads to.
pub open spec fn extract_field_value_spec(s: Schema, m: MessageV, path: Seq<char>) -> Result<
    Seq<PieceV>,
    ErrorV,
> {
    match navigate_to_value_spec(s, m, path) {
        Ok(v) => value_text_spec(s, v),
        Err(e) => Err(e),
    }
}

pub proof fn lemma_navigate_err(
    s: Schema,
    start: ValueV,
    parts: Seq<PathPartV>,
    k: nat,
    k2: nat,
    path: Seq<char>,
)
    requires
        k <= k2,
        navigate_spec(s, start, parts, k, path) is Err,
    ensures
        navigate_spec(s, start, parts, k2, path) == navigate_spec(s, start, parts, k, path),
    decreases k2,
{
    if k < k2 {
        lemma_navigate_err(s, start, parts, k, (k2 - 1) as nat, path);
    }
}

/// Follows a path from a message.
pub fn navigate_to_value(s: &Schema, message: &DynamicMessage, path: &str) -> (r: Result<
    Value,
    ProtoDuckError,
>)
    requires
        s.wf(),
        message_ok(*s, message@),
    ensures
        match r {
            Ok(v) => navigate_to_value_spec(*s, message@, path@) == Ok::<ValueV, ErrorV>(v@)
                && value_ok(*s, v@),
            Err(e) => navigate_to_value_spec(*s, message@, path@) == Err::<ValueV, ErrorV>(e@),
        },
{
    let start = Value::Message(crate::value::clone_message(message));
    let ghost sv = start@;
    let mut current = PathValue::new(start);
    let parts = parse_field_path(path)?;
    let ghost pv = crate::path::parts_view(parts@);
    let mut k: usize = 0;
    while k < parts.len()
        invariant
            s.wf(),
            k <= parts@.len(),
            pv == crate::path::parts_view(parts@),
            pv.len() == parts@.len(),
            sv == ValueV::Message(message@),
            parse_path_spec(path@) == Ok::<Seq<PathPartV>, Seq<char>>(pv),
            navigate_spec(*s, sv, pv, k as nat, path@) == Ok::<(ValueV, Option<Kind>), ErrorV>(
                (current.value@, current.map_key_kind),
            ),
            value_ok(*s, current.value@),
        decreases parts@.len() - k,
    {
        assert(pv[k as int] == parts@[k as int]@);
        current = match apply_path_part(s, current, &parts[k], path) {
            Ok(nv) => nv,
            Err(e) => {
                proof {
                    assert(((k + 1) as nat - 1) as nat == k as nat);
                    assert(navigate_spec(*s, sv, pv, (k + 1) as nat, path@) == Err::<
                        (ValueV, Option<Kind>),
                        ErrorV,
                    >(e@));
                    lemma_navigate_err(*s, sv, pv, (k + 1) as nat, pv.len(), path@);
                    assert(sv == ValueV::Message(message@));
                    assert(parse_path_spec(path@) == Ok::<Seq<PathPartV>, Seq<char>>(pv));
                    assert(navigate_spec(*s, sv, pv, pv.len(), path@) == Err::<
                        (ValueV, Option<Kind>),
                        ErrorV,
                    >(e@));
                }
                return Err(e);
            },
        };
        k = k + 1;
    }
    Ok(current.value)
}

/// The text of the field at `path`, as pieces. Plain
/// pieces are written as they are; a JSON piece (a nested message) as
/// compact JSON text.
pub fn extract_field_value(s: &Schema, message: &DynamicMessage, path: &str) -> (r: Result<
    Vec<TextPiece>,
    ProtoDuckError,
>)
    requires
        s.wf(),
        message_ok(*s, message@),
    ensures
        pieces_result_view(r) == extract_field_value_spec(*s, message@, path@),
{
    let v = navigate_to_value(s, message, path)?;
    value_to_string(s, &v)
}

} // verus!
