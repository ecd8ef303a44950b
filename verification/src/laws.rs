//! What the library promises across its functions.

use vstd::prelude::*;

use crate::external::{
    base64_decode_spec, base64_encode_spec, rfc3339_format_spec, rfc3339_parse_spec,
};
use crate::from_json::{
    conflicts, drop_conflicts, enum_number_spec, field_value_spec, json_map_key_spec, json_to_proto_spec, list_items_spec,
    map_insert_spec, map_items_spec, message_entries_spec, scalar_spec,
};
use crate::extract::map_index;
use crate::json::JsonV;
use crate::numeric::{int_text, lemma_parse_bool_text, lemma_parse_int_text};
use crate::schema::{
    field_index_spec, get_message_descriptor_spec,
    keys_distinct, EnumValueDescriptor, FieldDescriptor, Kind, Schema,
};
use crate::well_known_types::{
    input_entries_spec, input_field_spec, input_items_spec, input_map_spec, input_scalar_spec,
    json_to_proto_with_wkt_spec, output_entries_spec, output_field_spec, output_items_spec,
    output_map_spec, output_scalar_spec, output_value_spec,
};
use crate::to_json::{
    entries_json_spec, entry_index, enum_name_spec, fields_json_spec, float_json, get_field_spec,
    is_timestamp_kind, json_int, lemma_entry_index, list_json_spec, map_key_text, map_value_field,
    map_value_writer, message_to_json_spec, timestamp_full_name, value_to_json_spec,
};
use crate::value::{MapKeyV, MessageV, ValueV};
use crate::error::ErrorV;

verus! {

/// A map key of the type that `k` names.
pub open spec fn key_fits(key: MapKeyV, k: Kind) -> bool {
    match k {
        Kind::Bool => key is Bool,
        Kind::Int32 | Kind::Sint32 | Kind::Sfixed32 => key is I32,
        Kind::Int64 | Kind::Sint64 | Kind::Sfixed64 => key is I64,
        Kind::Uint32 | Kind::Fixed32 => key is U32,
        Kind::Uint64 | Kind::Fixed64 => key is U64,
        Kind::String => key is Str,
        _ => false,
    }
}

/// The base64 text of the bytes decodes back to them.
pub open spec fn base64_round_trips(b: Seq<u8>) -> bool {
    base64_decode_spec(base64_encode_spec(b)) == Ok::<Seq<u8>, Seq<char>>(b)
}

/// The seconds and nanos of a Timestamp message, with the indices of the
/// fields that hold them, as the JSON mapping reads them.
pub open spec fn timestamp_parts(s: Schema, m: MessageV) -> Option<(nat, i64, nat, i32)> {
    let fields = s.messages@[m.descriptor as int].fields@;
    match (field_index_spec(fields, "seconds"@), field_index_spec(fields, "nanos"@)) {
        (Some(si), Some(ni)) => match (get_field_spec(s, m, si), get_field_spec(s, m, ni)) {
            (ValueV::I64(secs), ValueV::I32(nanos)) => Some((si, secs, ni, nanos)),
            _ => None,
        },
        _ => None,
    }
}

/// chrono reads back the RFC 3339 text that it writes for the Timestamp, as
/// it does for every instant of the years 0000 to 9999; and the type's
/// `seconds` and `nanos` are not fields of one oneof.
pub open spec fn timestamp_round_trips(s: Schema, m: MessageV) -> bool {
    match timestamp_parts(s, m) {
        Some((si, secs, ni, nanos)) => {
            &&& !conflicts(s.messages@[m.descriptor as int].fields@, si, ni)
            &&& 0 <= nanos
            &&& rfc3339_format_spec(secs, nanos as u32) matches Some(t)
            &&& rfc3339_parse_spec(t) == Some((secs, nanos as u32))
        },
        None => false,
    }
}

/// A value of type `k` that the JSON mapping carries without loss: no
/// floating-point value (its JSON text is written outside the library), and
/// Timestamps that chrono reads back.
pub open spec fn plain_scalar(s: Schema, v: ValueV, k: Kind) -> bool
    decreases v, 0nat,
{
    match k {
        Kind::Bool => v is Bool,
        Kind::String => v is Str,
        Kind::Bytes => v matches ValueV::Bytes(b) && base64_round_trips(b),
        Kind::Int32 | Kind::Sint32 | Kind::Sfixed32 => v is I32,
        Kind::Int64 | Kind::Sint64 | Kind::Sfixed64 => v is I64,
        Kind::Uint32 | Kind::Fixed32 => v is U32,
        Kind::Uint64 | Kind::Fixed64 => v is U64,
        Kind::Float | Kind::Double => false,
        Kind::Enum(_) => v is EnumNumber,
        Kind::Message(md) => match v {
            ValueV::Message(m) => m.descriptor == md as nat && if is_timestamp_kind(s, k) {
                timestamp_round_trips(s, m)
            } else {
                plain_message(s, m)
            },
            _ => false,
        },
    }
}

/// No two set fields of the message belong to one oneof, as in every message
/// that prost-reflect holds: setting a field of a oneof clears the others.
pub open spec fn one_per_oneof(s: Schema, m: MessageV) -> bool {
    let fs = s.messages@[m.descriptor as int].fields@;
    forall|a: nat, b: nat|
        a < fs.len() && b < fs.len() && a != b && #[trigger] entry_index(m.fields, a) is Some
            && #[trigger] entry_index(m.fields, b) is Some && fs[a as int].oneof is Some
            ==> fs[a as int].oneof != fs[b as int].oneof
}

pub open spec fn plain_message(s: Schema, m: MessageV) -> bool
    decreases m, 3nat,
{
    m.descriptor < s.messages@.len() && one_per_oneof(s, m) && plain_entries(s, m.descriptor, m.fields)
}

pub open spec fn plain_entries(s: Schema, md: nat, f: Seq<(nat, ValueV)>) -> bool
    decreases f, 2nat,
{
    f.len() == 0 || (plain_entries(s, md, f.drop_last()) && f.last().0 < s.messages@[md as int].fields@.len()
        && plain_field_value(s, f.last().1, s.messages@[md as int].fields@[f.last().0 as int]))
}

/// The value of field `f`, carried by the JSON mapping without loss.
pub open spec fn plain_field_value(s: Schema, v: ValueV, f: FieldDescriptor) -> bool
    decreases v, 1nat,
{
    if f.is_list {
        match v {
            ValueV::List(l) => plain_list(s, l, f.kind),
            _ => false,
        }
    } else if f.is_map {
        match v {
            ValueV::MapOf(e) => match f.kind {
                Kind::Message(entry) => !is_timestamp_kind(s, f.kind) && !is_timestamp_kind(
                    s,
                    s.messages@[entry as int].fields@[1].kind,
                ) && keys_distinct(e) && plain_map(
                    s,
                    e,
                    s.messages@[entry as int].fields@[0].kind,
                    s.messages@[entry as int].fields@[1].kind,
                ),
                _ => false,
            },
            _ => false,
        }
    } else {
        plain_scalar(s, v, f.kind)
    }
}

pub open spec fn plain_list(s: Schema, l: Seq<ValueV>, k: Kind) -> bool
    decreases l, 0nat,
{
    l.len() == 0 || (plain_list(s, l.drop_last(), k) && plain_scalar(s, l.last(), k))
}

pub open spec fn plain_map(s: Schema, e: Seq<(MapKeyV, ValueV)>, kk: Kind, vk: Kind) -> bool
    decreases e, 0nat,
{
    e.len() == 0 || (plain_map(s, e.drop_last(), kk, vk) && key_fits(e.last().0, kk) && plain_scalar(
        s,
        e.last().1,
        vk,
    ))
}

/// A value after it went to JSON and back: in every message in it, each
/// list or map field that was not set is set to an empty one, and a
/// Timestamp has both its fields set.
pub open spec fn fill_value(s: Schema, v: ValueV) -> ValueV
    decreases v, 0nat,
{
    match v {
        ValueV::Message(m) => if s.messages@[m.descriptor as int].full_name@ == timestamp_full_name()
            && timestamp_parts(s, m) is Some {
            let (si, secs, ni, nanos) = timestamp_parts(s, m)->Some_0;
            ValueV::Message(
                MessageV {
                    descriptor: m.descriptor,
                    fields: seq![(si, ValueV::I64(secs)), (ni, ValueV::I32(nanos))],
                },
            )
        } else {
            ValueV::Message(
                MessageV {
                    descriptor: m.descriptor,
                    fields: fill_fields(s, m, s.messages@[m.descriptor as int].fields@.len()),
                },
            )
        },
        ValueV::List(l) => ValueV::List(fill_seq(s, l)),
        ValueV::MapOf(e) => ValueV::MapOf(fill_map(s, e)),
        other => other,
    }
}

pub open spec fn fill_seq(s: Schema, l: Seq<ValueV>) -> Seq<ValueV>
    decreases l, 0nat,
{
    if l.len() == 0 {
        Seq::empty()
    } else {
        fill_seq(s, l.drop_last()).push(fill_value(s, l.last()))
    }
}

pub open spec fn fill_map(s: Schema, e: Seq<(MapKeyV, ValueV)>) -> Seq<(MapKeyV, ValueV)>
    decreases e, 0nat,
{
    if e.len() == 0 {
        Seq::empty()
    } else {
        fill_map(s, e.drop_last()).push((e.last().0, fill_value(s, e.last().1)))
    }
}

/// The fields of the message after it went to JSON and back, for the first
/// `k` fields of its type, in the order of the type's fields.
pub open spec fn fill_fields(s: Schema, m: MessageV, k: nat) -> Seq<(nat, ValueV)>
    decreases m, k,
{
    if k == 0 {
        Seq::empty()
    } else {
        let prev = fill_fields(s, m, (k - 1) as nat);
        let f = s.messages@[m.descriptor as int].fields@[k - 1];
        match entry_index(m.fields, (k - 1) as nat) {
            Some(j) => {
                proof {
                    lemma_entry_index(m.fields, (k - 1) as nat);
                }
                prev.push(((k - 1) as nat, fill_value(s, m.fields[j].1)))
            },
            None => if f.is_list {
                prev.push(((k - 1) as nat, ValueV::List(Seq::empty())))
            } else if f.is_map {
                prev.push(((k - 1) as nat, ValueV::MapOf(Seq::empty())))
            } else {
                prev
            },
        }
    }
}

pub open spec fn fill_message(s: Schema, m: MessageV) -> MessageV {
    MessageV {
        descriptor: m.descriptor,
        fields: fill_fields(s, m, s.messages@[m.descriptor as int].fields@.len()),
    }
}

} // verus!

verus! {

proof fn lemma_enum_name_found(values: Seq<EnumValueDescriptor>, n: i32)
    ensures
        enum_name_spec(values, n) matches Some(x) ==> exists|i: int|
            0 <= i < values.len() && #[trigger] values[i].name@ == x && values[i].number == n,
    decreases values.len(),
{
    if values.len() > 0 && values[0].number != n {
        lemma_enum_name_found(values.drop_first(), n);
        if let Some(x) = enum_name_spec(values, n) {
            let i = choose|i: int|
                0 <= i < values.drop_first().len() && #[trigger] values.drop_first()[i].name@ == x
                    && values.drop_first()[i].number == n;
            assert(values[i + 1] == values.drop_first()[i]);
        }
    }
}

/// With distinct names, the name an enum number reads as reads back as the
/// number.
proof fn lemma_enum_name_number(values: Seq<EnumValueDescriptor>, n: i32)
    requires
        forall|i: int, j: int|
            0 <= i < j < values.len() ==> #[trigger] values[i].name@ != #[trigger] values[j].name@,
    ensures
        enum_name_spec(values, n) matches Some(x) ==> enum_number_spec(values, x) == Some(n),
    decreases values.len(),
{
    if values.len() > 0 && values[0].number != n {
        let rest = values.drop_first();
        assert forall|i: int, j: int| 0 <= i < j < rest.len() implies #[trigger] rest[i].name@
            != #[trigger] rest[j].name@ by {
            assert(rest[i] == values[i + 1]);
            assert(rest[j] == values[j + 1]);
        }
        lemma_enum_name_number(rest, n);
        lemma_enum_name_found(rest, n);
        if let Some(x) = enum_name_spec(values, n) {
            let i = choose|i: int|
                0 <= i < rest.len() && #[trigger] rest[i].name@ == x && rest[i].number == n;
            assert(rest[i] == values[i + 1]);
            assert(values[0].name@ != values[i + 1].name@);
        }
    }
}

/// With distinct names, a field is found by its own name.
pub proof fn lemma_field_index_of(fields: Seq<FieldDescriptor>, i: int)
    requires
        0 <= i < fields.len(),
        forall|a: int, b: int|
            0 <= a < b < fields.len() ==> #[trigger] fields[a].name@ != #[trigger] fields[b].name@,
    ensures
        field_index_spec(fields, fields[i].name@) == Some(i as nat),
    decreases fields.len(),
{
    let d = fields.drop_last();
    crate::schema::lemma_field_index(d, fields[i].name@);
    if i < fields.len() - 1 {
        assert forall|a: int, b: int| 0 <= a < b < d.len() implies #[trigger] d[a].name@
            != #[trigger] d[b].name@ by {
            assert(d[a] == fields[a]);
            assert(d[b] == fields[b]);
        }
        assert(d[i] == fields[i]);
        lemma_field_index_of(d, i);
    } else {
        if let Some(k) = field_index_spec(d, fields[i].name@) {
            assert(d[k as int] == fields[k as int]);
            assert(fields[k as int].name@ != fields[i].name@);
        }
    }
}

/// A map key's JSON text reads back as the key.
proof fn lemma_map_key_round_trip(key: MapKeyV, kf: FieldDescriptor)
    requires
        key_fits(key, kf.kind),
    ensures
        json_map_key_spec(map_key_text(key), kf) == Ok::<MapKeyV, crate::error::ErrorV>(key),
{
    match key {
        MapKeyV::Bool(b) => lemma_parse_bool_text(b),
        MapKeyV::I32(v) => lemma_parse_int_text(v as int, i32::MIN as int, i32::MAX as int),
        MapKeyV::I64(v) => lemma_parse_int_text(v as int, i64::MIN as int, i64::MAX as int),
        MapKeyV::U32(v) => lemma_parse_int_text(v as int, 0, u32::MAX as int),
        MapKeyV::U64(v) => lemma_parse_int_text(v as int, 0, u64::MAX as int),
        MapKeyV::Str(_) => {},
    }
}

proof fn lemma_fill_map_keys(s: Schema, e: Seq<(MapKeyV, ValueV)>)
    ensures
        fill_map(s, e).len() == e.len(),
        forall|i: int| 0 <= i < e.len() ==> #[trigger] fill_map(s, e)[i].0 == e[i].0,
    decreases e.len(),
{
    if e.len() > 0 {
        lemma_fill_map_keys(s, e.drop_last());
        assert forall|i: int| 0 <= i < e.len() implies #[trigger] fill_map(s, e)[i].0 == e[i].0 by {
            if i < e.len() - 1 {
                assert(e.drop_last()[i] == e[i]);
            }
        }
    }
}

proof fn lemma_plain_entries(s: Schema, md: nat, f: Seq<(nat, ValueV)>)
    requires
        plain_entries(s, md, f),
    ensures
        forall|i: int|
            0 <= i < f.len() ==> (#[trigger] f[i]).0 < s.messages@[md as int].fields@.len()
                && plain_field_value(s, f[i].1, s.messages@[md as int].fields@[f[i].0 as int]),
    decreases f.len(),
{
    if f.len() > 0 {
        lemma_plain_entries(s, md, f.drop_last());
        assert forall|i: int| 0 <= i < f.len() implies (#[trigger] f[i]).0 < s.messages@[md as int].fields@.len()
            && plain_field_value(s, f[i].1, s.messages@[md as int].fields@[f[i].0 as int]) by {
            if i < f.len() - 1 {
                assert(f.drop_last()[i] == f[i]);
            }
        }
    }
}

} // verus!

verus! {

proof fn lemma_map_index_absent(e: Seq<(MapKeyV, ValueV)>, k: MapKeyV)
    requires
        forall|i: int| 0 <= i < e.len() ==> #[trigger] e[i].0 != k,
    ensures
        map_index(e, k) is None,
    decreases e.len(),
{
    if e.len() > 0 {
        assert(e[0].0 != k);
        let r = e.drop_first();
        assert forall|i: int| 0 <= i < r.len() implies #[trigger] r[i].0 != k by {
            assert(r[i] == e[i + 1]);
        }
        lemma_map_index_absent(r, k);
    }
}

/// The JSON written for a value of type `k` reads back as the value. `w` is
/// the field that the writing went by (the field itself, or for the value of
/// a map the map field or its entry type's value field); `r` is the field
/// that the reading names in its errors.
proof fn lemma_scalar_rt(s: Schema, v: ValueV, w: FieldDescriptor, r: FieldDescriptor, k: Kind)
    requires
        s.wf(),
        s.kind_wf(k),
        plain_scalar(s, v, k),
        is_timestamp_kind(s, w.kind) == is_timestamp_kind(s, k),
        w.kind == k || !(w.kind is Enum),
    ensures
        value_to_json_spec(s, v, w) matches Ok(j) && scalar_spec(s, j, r, k) == Ok::<
            ValueV,
            ErrorV,
        >(fill_value(s, v)),
    decreases v, 0nat,
{
    match k {
        Kind::Message(md) => {
            let m = v->Message_0;
            if is_timestamp_kind(s, k) {
                let (si, secs, ni, nanos) = timestamp_parts(s, m)->Some_0;
                let t = rfc3339_format_spec(secs, nanos as u32)->Some_0;
                assert(value_to_json_spec(s, v, w) == Ok::<JsonV, ErrorV>(JsonV::Str(t)));
                assert((nanos as u32) as i32 == nanos);
                let fs = s.messages@[md as int].fields@;
                let first = seq![(si, ValueV::I64(secs))];
                assert(first.drop_last() =~= Seq::<(nat, ValueV)>::empty());
                assert(drop_conflicts(Seq::<(nat, ValueV)>::empty(), fs, ni) =~= Seq::<
                    (nat, ValueV),
                >::empty());
                assert(m.descriptor == md);
                assert(!conflicts(fs, si, ni));
                assert(drop_conflicts(first, fs, ni) =~= first);
                assert(first.push((ni, ValueV::I32(nanos))) =~= seq![
                    (si, ValueV::I64(secs)),
                    (ni, ValueV::I32(nanos)),
                ]);
            } else {
                lemma_fields_rt(s, m, s.messages@[m.descriptor as int].fields@.len());
            }
        },
        Kind::Enum(e) => {
            let n = v->EnumNumber_0;
            let values = s.enums@[e as int].values@;
            if w.kind == k {
                assert forall|i: int, j: int| 0 <= i < j < values.len() implies #[trigger] values[i].name@
                    != #[trigger] values[j].name@ by {
                    assert(s.enums@[e as int].values@[i] == values[i]);
                    assert(s.enums@[e as int].values@[j] == values[j]);
                }
                lemma_enum_name_number(values, n);
            }
        },
        _ => {},
    }
}

/// The JSON written for the value of field `f` reads back as the value.
proof fn lemma_field_rt(s: Schema, v: ValueV, f: FieldDescriptor)
    requires
        s.wf(),
        s.field_wf(f),
        plain_field_value(s, v, f),
    ensures
        value_to_json_spec(s, v, f) matches Ok(j) && field_value_spec(s, j, f) == Ok::<
            ValueV,
            ErrorV,
        >(fill_value(s, v)),
    decreases v, 1nat,
{
    if f.is_list {
        lemma_list_rt(s, v->List_0, f);
    } else if f.is_map {
        let entry = f.kind->Message_0;
        assert(s.message_wf(s.messages@[entry as int]));
        let kf = s.messages@[entry as int].fields@[0];
        let vf = s.messages@[entry as int].fields@[1];
        assert(s.field_wf(vf));
        lemma_map_rt(s, v->MapOf_0, f, kf, vf);
    } else {
        lemma_scalar_rt(s, v, f, f, f.kind);
    }
}

proof fn lemma_list_rt(s: Schema, l: Seq<ValueV>, f: FieldDescriptor)
    requires
        s.wf(),
        s.kind_wf(f.kind),
        plain_list(s, l, f.kind),
    ensures
        list_json_spec(s, l, f) matches Ok(js) && list_items_spec(s, js, f) == Ok::<
            Seq<ValueV>,
            ErrorV,
        >(fill_seq(s, l)),
    decreases l, 0nat,
{
    if l.len() > 0 {
        lemma_list_rt(s, l.drop_last(), f);
        lemma_scalar_rt(s, l.last(), f, f, f.kind);
        let js = list_json_spec(s, l.drop_last(), f)->Ok_0;
        let j = value_to_json_spec(s, l.last(), f)->Ok_0;
        assert(js.push(j).drop_last() =~= js);
    }
}

proof fn lemma_map_rt(
    s: Schema,
    e: Seq<(MapKeyV, ValueV)>,
    mf: FieldDescriptor,
    kf: FieldDescriptor,
    vf: FieldDescriptor,
)
    requires
        s.wf(),
        s.kind_wf(vf.kind),
        mf.kind is Message,
        !is_timestamp_kind(s, mf.kind),
        !is_timestamp_kind(s, vf.kind),
        keys_distinct(e),
        plain_map(s, e, kf.kind, vf.kind),
    ensures
        entries_json_spec(s, e, mf, vf) matches Ok(je) && map_items_spec(s, je, kf, vf) == Ok::<
            Seq<(MapKeyV, ValueV)>,
            ErrorV,
        >(fill_map(s, e)),
    decreases e, 0nat,
{
    if e.len() > 0 {
        let d = e.drop_last();
        assert forall|i: int, j: int| 0 <= i < j < d.len() implies #[trigger] d[i].0 != #[trigger] d[j].0 by {
            assert(d[i] == e[i]);
            assert(d[j] == e[j]);
        }
        lemma_map_rt(s, d, mf, kf, vf);
        let w = crate::to_json::map_value_writer(e.last().1, mf, vf);
        lemma_scalar_rt(s, e.last().1, w, vf, vf.kind);
        let key = e.last().0;
        lemma_map_key_round_trip(key, kf);
        lemma_fill_map_keys(s, d);
        assert forall|i: int| 0 <= i < fill_map(s, d).len() implies #[trigger] fill_map(s, d)[i].0
            != key by {
            assert(d[i] == e[i]);
            assert(e[i].0 != e[e.len() - 1].0);
        }
        lemma_map_index_absent(fill_map(s, d), key);
        let je = entries_json_spec(s, d, mf, vf)->Ok_0;
        let j = value_to_json_spec(s, e.last().1, w)->Ok_0;
        assert(je.push((map_key_text(key), j)).drop_last() =~= je);
    }
}

/// Setting field `fi` clears none of the entries of `x`: they stay as they are.
proof fn lemma_drop_none(x: Seq<(nat, ValueV)>, fs: Seq<FieldDescriptor>, fi: nat)
    requires
        forall|q: int| 0 <= q < x.len() ==> !conflicts(fs, (#[trigger] x[q]).0, fi),
    ensures
        drop_conflicts(x, fs, fi) == x,
    decreases x.len(),
{
    if x.len() > 0 {
        assert forall|q: int| 0 <= q < x.drop_last().len() implies !conflicts(
            fs,
            (#[trigger] x.drop_last()[q]).0,
            fi,
        ) by {
            assert(x.drop_last()[q] == x[q]);
        }
        lemma_drop_none(x.drop_last(), fs, fi);
        assert(x.drop_last().push(x.last()) =~= x);
    }
}

/// The filled fields of the first `k` fields are among them, and each is set
/// in the message or is a list or a map.
proof fn lemma_fill_fields_entries(s: Schema, m: MessageV, k: nat)
    requires
        k <= s.messages@[m.descriptor as int].fields@.len(),
    ensures
        forall|q: int|
            0 <= q < fill_fields(s, m, k).len() ==> (#[trigger] fill_fields(s, m, k)[q]).0 < k
                && emitted(s, m, fill_fields(s, m, k)[q].0),
    decreases k,
{
    if k > 0 {
        lemma_fill_fields_entries(s, m, (k - 1) as nat);
        let prev = fill_fields(s, m, (k - 1) as nat);
        let cur = fill_fields(s, m, k);
        assert forall|q: int| 0 <= q < cur.len() implies (#[trigger] cur[q]).0 < k && emitted(
            s,
            m,
            cur[q].0,
        ) by {
            if q < prev.len() {
                assert(cur[q] == prev[q]);
            }
        }
    }
}

/// The JSON entries written for the first `k` fields of the message's type
/// read back as those fields, filled.
proof fn lemma_fields_rt(s: Schema, m: MessageV, k: nat)
    requires
        s.wf(),
        plain_message(s, m),
        k <= s.messages@[m.descriptor as int].fields@.len(),
    ensures
        fields_json_spec(s, m, k) matches Ok(e) && message_entries_spec(s, m.descriptor, e) == Ok::<
            Seq<(nat, ValueV)>,
            ErrorV,
        >(fill_fields(s, m, k)),
    decreases m, k,
{
    if k > 0 {
        let i = (k - 1) as nat;
        lemma_fields_rt(s, m, i);
        let fs = s.messages@[m.descriptor as int].fields@;
        let f = fs[i as int];
        let e = fields_json_spec(s, m, i)->Ok_0;
        assert forall|a: int, b: int| 0 <= a < b < fs.len() implies #[trigger] fs[a].name@
            != #[trigger] fs[b].name@ by {
            assert(s.messages@[m.descriptor as int].fields@[a] == fs[a]);
            assert(s.messages@[m.descriptor as int].fields@[b] == fs[b]);
        }
        lemma_field_index_of(fs, i as int);
        assert(s.message_wf(s.messages@[m.descriptor as int]));
        assert(s.field_wf(f));
        let prev = fill_fields(s, m, i);
        lemma_fill_fields_entries(s, m, i);
        if emitted(s, m, i) {
            assert forall|q: int| 0 <= q < prev.len() implies !conflicts(
                fs,
                (#[trigger] prev[q]).0,
                i,
            ) by {
                let a = prev[q].0;
                assert(emitted(s, m, a));
                assert(s.field_wf(fs[a as int]));
                if f.oneof is Some && fs[a as int].oneof == f.oneof {
                    assert(entry_index(m.fields, a) is Some);
                    assert(entry_index(m.fields, i) is Some);
                    assert(fs[a as int].oneof != fs[i as int].oneof);
                }
            }
            lemma_drop_none(prev, fs, i);
        }
        match entry_index(m.fields, i) {
            Some(j) => {
                lemma_entry_index(m.fields, i);
                lemma_plain_entries(s, m.descriptor, m.fields);
                lemma_field_rt(s, m.fields[j].1, f);
                let jv = value_to_json_spec(s, m.fields[j].1, f)->Ok_0;
                assert(e.push((f.name@, jv)).drop_last() =~= e);
            },
            None => {
                if f.is_list {
                    assert(e.push((f.name@, JsonV::Array(Seq::empty()))).drop_last() =~= e);
                    assert(list_items_spec(s, Seq::empty(), f) == Ok::<Seq<ValueV>, ErrorV>(
                        Seq::empty(),
                    ));
                    assert(field_value_spec(s, JsonV::Array(Seq::empty()), f) == Ok::<
                        ValueV,
                        ErrorV,
                    >(ValueV::List(Seq::empty())));
                } else if f.is_map {
                    assert(e.push((f.name@, JsonV::Object(Seq::empty()))).drop_last() =~= e);
                    let entry = s.messages@[f.kind->Message_0 as int];
                    assert(map_items_spec(s, Seq::empty(), entry.fields@[0], entry.fields@[1])
                        == Ok::<Seq<(MapKeyV, ValueV)>, ErrorV>(Seq::empty()));
                    assert(field_value_spec(s, JsonV::Object(Seq::empty()), f) == Ok::<
                        ValueV,
                        ErrorV,
                    >(ValueV::MapOf(Seq::empty())));
                }
            },
        }
    }
}

/// A decoded message comes back from its JSON unchanged, but for its unset
/// list and map fields, which come back set to empty ones, and its
/// Timestamps, which come back with both fields set: `json_to_proto`, given
/// the name of the message's type, reads what `message_to_json` writes. This
/// holds of messages whose values the JSON mapping carries (see
/// `plain_message`): no floating-point value, no Timestamp among the values
/// of a map (there it is written as its fields and read as text), and
/// Timestamps whose RFC 3339 text chrono reads back; and, as in every message
/// that prost-reflect holds, no two set fields of one oneof.
pub proof fn law_json_round_trip(s: Schema, m: MessageV, message_type: Seq<char>)
    requires
        s.wf(),
        plain_message(s, m),
        get_message_descriptor_spec(s, message_type) == Ok::<nat, ErrorV>(m.descriptor),
    ensures
        message_to_json_spec(s, m) matches Ok(j) && json_to_proto_spec(s, Ok(j), message_type)
            == Ok::<MessageV, ErrorV>(fill_message(s, m)),
{
    lemma_fields_rt(s, m, s.messages@[m.descriptor as int].fields@.len());
}

} // verus!

verus! {

/// No message type of the schema is called `google.protobuf.Timestamp`.
pub open spec fn no_timestamp_type(s: Schema) -> bool {
    forall|i: int|
        0 <= i < s.messages@.len() ==> #[trigger] s.messages@[i].full_name@ != timestamp_full_name()
}

proof fn lemma_input_scalar_id(s: Schema, j: JsonV, f: FieldDescriptor, kind: Kind)
    requires
        s.wf(),
        no_timestamp_type(s),
        s.kind_wf(kind),
        scalar_spec(s, j, f, kind) is Ok,
    ensures
        input_scalar_spec(s, j, kind) == Ok::<JsonV, ErrorV>(j),
    decreases j, 1nat,
{
    if let Kind::Message(md) = kind {
        assert(s.messages@[md as int].full_name@ != timestamp_full_name());
        lemma_input_entries_id(s, j->Object_0, md as nat);
    }
}

proof fn lemma_input_entries_id(s: Schema, e: Seq<(Seq<char>, JsonV)>, md: nat)
    requires
        s.wf(),
        no_timestamp_type(s),
        md < s.messages@.len(),
        message_entries_spec(s, md, e) is Ok,
    ensures
        input_entries_spec(s, e, md) == Ok::<Seq<(Seq<char>, JsonV)>, ErrorV>(e),
    decreases e, 0nat,
{
    if e.len() > 0 {
        lemma_input_entries_id(s, e.drop_last(), md);
        let fs = s.messages@[md as int].fields@;
        let fi = field_index_spec(fs, e.last().0)->Some_0;
        crate::schema::lemma_field_index(fs, e.last().0);
        assert(s.message_wf(s.messages@[md as int]));
        assert(s.field_wf(fs[fi as int]));
        lemma_input_field_id(s, e.last().1, fs[fi as int]);
        assert(e.drop_last().push((e.last().0, e.last().1)) =~= e);
    } else {
        assert(e =~= Seq::empty());
    }
}

proof fn lemma_input_field_id(s: Schema, j: JsonV, f: FieldDescriptor)
    requires
        s.wf(),
        no_timestamp_type(s),
        s.field_wf(f),
        field_value_spec(s, j, f) is Ok,
    ensures
        input_field_spec(s, j, f) == Ok::<JsonV, ErrorV>(j),
    decreases j, 2nat,
{
    if f.is_list {
        lemma_input_items_id(s, j->Array_0, f);
    } else if f.is_map {
        let entry = s.messages@[f.kind->Message_0 as int];
        assert(s.message_wf(entry));
        assert(s.field_wf(entry.fields@[1]));
        lemma_input_map_id(s, j->Object_0, entry.fields@[0], entry.fields@[1]);
    } else {
        lemma_input_scalar_id(s, j, f, f.kind);
    }
}

proof fn lemma_input_items_id(s: Schema, items: Seq<JsonV>, f: FieldDescriptor)
    requires
        s.wf(),
        no_timestamp_type(s),
        s.kind_wf(f.kind),
        list_items_spec(s, items, f) is Ok,
    ensures
        input_items_spec(s, items, f.kind) == Ok::<Seq<JsonV>, ErrorV>(items),
    decreases items, 1nat,
{
    if items.len() > 0 {
        lemma_input_items_id(s, items.drop_last(), f);
        lemma_input_scalar_id(s, items.last(), f, f.kind);
        assert(items.drop_last().push(items.last()) =~= items);
    } else {
        assert(items =~= Seq::empty());
    }
}

proof fn lemma_input_map_id(
    s: Schema,
    e: Seq<(Seq<char>, JsonV)>,
    kf: FieldDescriptor,
    vf: FieldDescriptor,
)
    requires
        s.wf(),
        no_timestamp_type(s),
        s.kind_wf(vf.kind),
        map_items_spec(s, e, kf, vf) is Ok,
    ensures
        input_map_spec(s, e, vf.kind) == Ok::<Seq<(Seq<char>, JsonV)>, ErrorV>(e),
    decreases e, 1nat,
{
    if e.len() > 0 {
        lemma_input_map_id(s, e.drop_last(), kf, vf);
        lemma_input_scalar_id(s, e.last().1, vf, vf.kind);
        assert(e.drop_last().push((e.last().0, e.last().1)) =~= e);
    } else {
        assert(e =~= Seq::empty());
    }
}

/// Where no type of the schema is a Timestamp, `json_to_proto_with_wkt`
/// converts every document that `json_to_proto` converts, to the same
/// message: checking Timestamp strings changes nothing there.
pub proof fn law_wkt_without_timestamps(
    s: Schema,
    parsed: Result<JsonV, Seq<char>>,
    message_type: Seq<char>,
)
    requires
        s.wf(),
        no_timestamp_type(s),
        json_to_proto_spec(s, parsed, message_type) is Ok,
    ensures
        json_to_proto_with_wkt_spec(s, parsed, message_type) == json_to_proto_spec(
            s,
            parsed,
            message_type,
        ),
{
    let md = get_message_descriptor_spec(s, message_type)->Ok_0;
    crate::schema::lemma_message_index(s.messages@, message_type);
    lemma_input_entries_id(s, parsed->Ok_0->Object_0, md);
}

} // verus!

verus! {

/// The range of an integer field type, for the types that hold integers.
pub open spec fn int_kind_range(k: Kind) -> Option<(int, int)> {
    match k {
        Kind::Int32 | Kind::Sint32 | Kind::Sfixed32 => Some((i32::MIN as int, i32::MAX as int)),
        Kind::Int64 | Kind::Sint64 | Kind::Sfixed64 => Some((i64::MIN as int, i64::MAX as int)),
        Kind::Uint32 | Kind::Fixed32 => Some((0, u32::MAX as int)),
        Kind::Uint64 | Kind::Fixed64 => Some((0, u64::MAX as int)),
        _ => None,
    }
}

/// The integer that a value of an integer kind holds.
pub open spec fn int_value(v: ValueV) -> Option<int> {
    match v {
        ValueV::I32(x) => Some(x as int),
        ValueV::I64(x) => Some(x as int),
        ValueV::U32(x) => Some(x as int),
        ValueV::U64(x) => Some(x as int),
        _ => None,
    }
}

/// An integer field given an integer as a decimal string converts to the
/// same message as given the integer as a JSON number, and both convert:
/// to the message with that one field set, holding that integer.
pub proof fn law_integer_string(s: Schema, md: nat, fi: nat, n: int, message_type: Seq<char>)
    requires
        s.wf(),
        md < s.messages@.len(),
        fi < s.messages@[md as int].fields@.len(),
        !s.messages@[md as int].fields@[fi as int].is_list,
        !s.messages@[md as int].fields@[fi as int].is_map,
        int_kind_range(s.messages@[md as int].fields@[fi as int].kind) matches Some((lo, hi))
            && lo <= n <= hi,
        get_message_descriptor_spec(s, message_type) == Ok::<nat, ErrorV>(md),
    ensures
        ({
            let name = s.messages@[md as int].fields@[fi as int].name@;
            let as_text = JsonV::Object(seq![(name, JsonV::Str(int_text(n)))]);
            let as_number = JsonV::Object(seq![(name, JsonV::Number(json_int(n)))]);
            &&& json_to_proto_spec(s, Ok(as_text), message_type) is Ok
            &&& json_to_proto_spec(s, Ok(as_text), message_type) == json_to_proto_spec(
                s,
                Ok(as_number),
                message_type,
            )
            &&& json_to_proto_spec(s, Ok(as_number), message_type) matches Ok(m) && m.descriptor == md
                && m.fields.len() == 1 && m.fields[0].0 == fi && int_value(m.fields[0].1) == Some(n)
        }),
{
    let fs = s.messages@[md as int].fields@;
    let f = fs[fi as int];
    assert forall|a: int, b: int| 0 <= a < b < fs.len() implies #[trigger] fs[a].name@
        != #[trigger] fs[b].name@ by {
        assert(s.messages@[md as int].fields@[a] == fs[a]);
        assert(s.messages@[md as int].fields@[b] == fs[b]);
    }
    lemma_field_index_of(fs, fi as int);
    match f.kind {
        Kind::Uint32 | Kind::Fixed32 | Kind::Uint64 | Kind::Fixed64 => {
            lemma_parse_int_text(n, 0, u64::MAX as int);
        },
        _ => {
            lemma_parse_int_text(n, i64::MIN as int, i64::MAX as int);
        },
    }
    let e1 = seq![(f.name@, JsonV::Str(int_text(n)))];
    let e2 = seq![(f.name@, JsonV::Number(json_int(n)))];
    assert(e1.drop_last() =~= Seq::<(Seq<char>, JsonV)>::empty());
    assert(e2.drop_last() =~= Seq::<(Seq<char>, JsonV)>::empty());
    let v = match f.kind {
        Kind::Int32 | Kind::Sint32 | Kind::Sfixed32 => ValueV::I32(n as i32),
        Kind::Int64 | Kind::Sint64 | Kind::Sfixed64 => ValueV::I64(n as i64),
        Kind::Uint32 | Kind::Fixed32 => ValueV::U32(n as u32),
        _ => ValueV::U64(n as u64),
    };
    assert(scalar_spec(s, JsonV::Str(int_text(n)), f, f.kind) == Ok::<ValueV, ErrorV>(v));
    assert(scalar_spec(s, JsonV::Number(json_int(n)), f, f.kind) == Ok::<ValueV, ErrorV>(v));
    assert(field_value_spec(s, JsonV::Str(int_text(n)), f) == Ok::<ValueV, ErrorV>(v));
    assert(field_value_spec(s, JsonV::Number(json_int(n)), f) == Ok::<ValueV, ErrorV>(v));
    assert(message_entries_spec(s, md, Seq::empty()) == Ok::<Seq<(nat, ValueV)>, ErrorV>(
        Seq::empty(),
    ));
    assert(e1.last() == (f.name@, JsonV::Str(int_text(n))));
    assert(e2.last() == (f.name@, JsonV::Number(json_int(n))));
    assert(Seq::<(nat, ValueV)>::empty().push((fi, v)) =~= seq![(fi, v)]);
    assert(message_entries_spec(s, md, e1) == Ok::<Seq<(nat, ValueV)>, ErrorV>(seq![(fi, v)]));
    assert(message_entries_spec(s, md, e2) == Ok::<Seq<(nat, ValueV)>, ErrorV>(seq![(fi, v)]));
}

} // verus!

verus! {

/// Field `k` of the message's type appears in its JSON: it is set, or it is
/// a list or a map.
pub open spec fn emitted(s: Schema, m: MessageV, k: nat) -> bool {
    let f = s.messages@[m.descriptor as int].fields@[k as int];
    entry_index(m.fields, k) is Some || f.is_list || f.is_map
}

/// `name` is the name of one of the first `k` fields, and that field
/// appears in the JSON.
pub open spec fn names_emitted_field(s: Schema, m: MessageV, name: Seq<char>, k: nat) -> bool {
    exists|q: nat|
        q < k && #[trigger] s.messages@[m.descriptor as int].fields@[q as int].name@ == name
            && emitted(s, m, q)
}

pub open spec fn holds_entry(o: Seq<(Seq<char>, JsonV)>, x: (Seq<char>, JsonV)) -> bool {
    exists|i: int| 0 <= i < o.len() && #[trigger] o[i] == x
}

/// What the JSON object of a message holds for the first `k` fields of its
/// type: a key for each field that appears and for no other; a set field's
/// value as JSON, an unset list as `[]`, an unset map as `{}`.
pub open spec fn object_of_fields(s: Schema, m: MessageV, o: Seq<(Seq<char>, JsonV)>, k: nat) -> bool {
    let fs = s.messages@[m.descriptor as int].fields@;
    &&& forall|i: int| 0 <= i < o.len() ==> names_emitted_field(s, m, #[trigger] o[i].0, k)
    &&& forall|q: nat|
        q < k && #[trigger] emitted(s, m, q) ==> holds_entry(
            o,
            (
                fs[q as int].name@,
                match entry_index(m.fields, q) {
                    Some(j) => value_to_json_spec(s, m.fields[j].1, fs[q as int])->Ok_0,
                    None => if fs[q as int].is_list {
                        JsonV::Array(Seq::empty())
                    } else {
                        JsonV::Object(Seq::empty())
                    },
                },
            ),
        )
}

proof fn lemma_object_of_fields(s: Schema, m: MessageV, k: nat)
    requires
        k <= s.messages@[m.descriptor as int].fields@.len(),
        fields_json_spec(s, m, k) is Ok,
    ensures
        object_of_fields(s, m, fields_json_spec(s, m, k)->Ok_0, k),
    decreases k,
{
    if k > 0 {
        let i = (k - 1) as nat;
        lemma_fields_json_ok_prefix(s, m, i, k);
        lemma_object_of_fields(s, m, i);
        let fs = s.messages@[m.descriptor as int].fields@;
        let p = fields_json_spec(s, m, i)->Ok_0;
        let o = fields_json_spec(s, m, k)->Ok_0;
        assert(o == p || (o.len() == p.len() + 1 && o.drop_last() == p));
        assert forall|a: int| 0 <= a < p.len() implies o[a] == p[a] by {
            if o != p {
                assert(o.drop_last()[a] == o[a]);
            }
        }
        assert forall|a: int| 0 <= a < o.len() implies names_emitted_field(s, m, #[trigger] o[a].0, k) by {
            if a < p.len() {
                assert(names_emitted_field(s, m, p[a].0, i));
                let q = choose|q: nat| q < i && #[trigger] fs[q as int].name@ == p[a].0 && emitted(s, m, q);
                assert(fs[q as int].name@ == o[a].0);
            } else {
                assert(fs[i as int].name@ == o[a].0);
                assert(emitted(s, m, i));
            }
        }
        assert forall|q: nat| q < k && #[trigger] emitted(s, m, q) implies holds_entry(
            o,
            (
                fs[q as int].name@,
                match entry_index(m.fields, q) {
                    Some(j) => value_to_json_spec(s, m.fields[j].1, fs[q as int])->Ok_0,
                    None => if fs[q as int].is_list {
                        JsonV::Array(Seq::empty())
                    } else {
                        JsonV::Object(Seq::empty())
                    },
                },
            ),
        ) by {
            let x = (
                fs[q as int].name@,
                match entry_index(m.fields, q) {
                    Some(j) => value_to_json_spec(s, m.fields[j].1, fs[q as int])->Ok_0,
                    None => if fs[q as int].is_list {
                        JsonV::Array(Seq::empty())
                    } else {
                        JsonV::Object(Seq::empty())
                    },
                },
            );
            if q < i {
                let a = choose|a: int| 0 <= a < p.len() && #[trigger] p[a] == x;
                assert(o[a] == x);
            } else {
                assert(o.len() == p.len() + 1);
                assert(o[p.len() as int] == x);
            }
        }
    }
}

/// Once the entries of the first `k2` fields are written, so are those of
/// every shorter prefix.
proof fn lemma_fields_json_ok_prefix(s: Schema, m: MessageV, k: nat, k2: nat)
    requires
        k <= k2,
        fields_json_spec(s, m, k2) is Ok,
    ensures
        fields_json_spec(s, m, k) is Ok,
    decreases k2,
{
    if k < k2 {
        lemma_fields_json_ok_prefix(s, m, k, (k2 - 1) as nat);
    }
}

/// The JSON object written for a message has a key for each field of its
/// type that is set, is a list or is a map, and for no other field; it
/// holds each set field's value as JSON, each unset list as `[]` and each
/// unset map as `{}`.
pub proof fn law_json_object_keys(s: Schema, m: MessageV)
    requires
        message_to_json_spec(s, m) is Ok,
    ensures
        message_to_json_spec(s, m)->Ok_0 is Object,
        object_of_fields(
            s,
            m,
            message_to_json_spec(s, m)->Ok_0->Object_0,
            s.messages@[m.descriptor as int].fields@.len(),
        ),
{
    lemma_object_of_fields(s, m, s.messages@[m.descriptor as int].fields@.len());
}

} // verus!

verus! {

/// A message type named by `k`, if any, is in `t`.
pub open spec fn kind_in(t: Set<nat>, k: Kind) -> bool {
    match k {
        Kind::Message(y) => t.contains(y as nat),
        _ => true,
    }
}

/// The message types in `t` are types of the schema, none of them a
/// Timestamp, and every message type that a field of one of them names (a
/// sub-message, the items of a list, the entry type of a map) is in `t`: no
/// Timestamp is reachable from a type in `t`.
pub open spec fn timestamp_free_closure(s: Schema, t: Set<nat>) -> bool {
    forall|x: nat|
        #[trigger] t.contains(x) ==> {
            &&& x < s.messages@.len()
            &&& s.messages@[x as int].full_name@ != timestamp_full_name()
            &&& forall|i: int|
                0 <= i < s.messages@[x as int].fields@.len() ==> kind_in(
                    t,
                    (#[trigger] s.messages@[x as int].fields@[i]).kind,
                )
        }
}

proof fn lemma_output_value_id(s: Schema, t: Set<nat>, j: JsonV, md: nat)
    requires
        s.wf(),
        timestamp_free_closure(s, t),
        t.contains(md),
    ensures
        output_value_spec(s, j, md) == Ok::<JsonV, ErrorV>(j),
    decreases j, 0nat,
{
    if let JsonV::Object(e) = j {
        lemma_output_entries_id(s, t, e, md);
    }
}

proof fn lemma_output_entries_id(s: Schema, t: Set<nat>, e: Seq<(Seq<char>, JsonV)>, md: nat)
    requires
        s.wf(),
        timestamp_free_closure(s, t),
        t.contains(md),
    ensures
        output_entries_spec(s, e, md) == Ok::<Seq<(Seq<char>, JsonV)>, ErrorV>(e),
    decreases e, 0nat,
{
    if e.len() > 0 {
        lemma_output_entries_id(s, t, e.drop_last(), md);
        let fields = s.messages@[md as int].fields@;
        crate::schema::lemma_field_index(fields, e.last().0);
        if let Some(fi) = field_index_spec(fields, e.last().0) {
            assert(s.message_wf(s.messages@[md as int]));
            assert(s.field_wf(fields[fi as int]));
            assert(kind_in(t, s.messages@[md as int].fields@[fi as int].kind));
            lemma_output_field_id(s, t, e.last().1, fields[fi as int]);
        }
        assert(e.drop_last().push((e.last().0, e.last().1)) =~= e);
    } else {
        assert(e =~= Seq::empty());
    }
}

proof fn lemma_output_field_id(s: Schema, t: Set<nat>, j: JsonV, f: FieldDescriptor)
    requires
        s.wf(),
        timestamp_free_closure(s, t),
        s.field_wf(f),
        kind_in(t, f.kind),
    ensures
        output_field_spec(s, j, f) == Ok::<JsonV, ErrorV>(j),
    decreases j, 2nat,
{
    if f.is_list {
        if let JsonV::Array(items) = j {
            lemma_output_items_id(s, t, items, f.kind);
        }
    } else if f.is_map {
        if let JsonV::Object(entries) = j {
            let entry = f.kind->Message_0;
            assert(t.contains(entry as nat));
            assert(s.message_wf(s.messages@[entry as int]));
            let vk = s.messages@[entry as int].fields@[1].kind;
            assert(kind_in(t, vk));
            lemma_output_map_id(s, t, entries, vk);
        }
    } else {
        lemma_output_scalar_id(s, t, j, f.kind);
    }
}

proof fn lemma_output_scalar_id(s: Schema, t: Set<nat>, j: JsonV, kind: Kind)
    requires
        s.wf(),
        timestamp_free_closure(s, t),
        kind_in(t, kind),
    ensures
        output_scalar_spec(s, j, kind) == Ok::<JsonV, ErrorV>(j),
    decreases j, 1nat,
{
    if let Kind::Message(md) = kind {
        lemma_output_value_id(s, t, j, md as nat);
    }
}

proof fn lemma_output_items_id(s: Schema, t: Set<nat>, items: Seq<JsonV>, kind: Kind)
    requires
        s.wf(),
        timestamp_free_closure(s, t),
        kind_in(t, kind),
    ensures
        output_items_spec(s, items, kind) == Ok::<Seq<JsonV>, ErrorV>(items),
    decreases items, 1nat,
{
    if items.len() > 0 {
        lemma_output_items_id(s, t, items.drop_last(), kind);
        lemma_output_scalar_id(s, t, items.last(), kind);
        assert(items.drop_last().push(items.last()) =~= items);
    } else {
        assert(items =~= Seq::empty());
    }
}

proof fn lemma_output_map_id(s: Schema, t: Set<nat>, e: Seq<(Seq<char>, JsonV)>, kind: Kind)
    requires
        s.wf(),
        timestamp_free_closure(s, t),
        kind_in(t, kind),
    ensures
        output_map_spec(s, e, kind) == Ok::<Seq<(Seq<char>, JsonV)>, ErrorV>(e),
    decreases e, 1nat,
{
    if e.len() > 0 {
        lemma_output_map_id(s, t, e.drop_last(), kind);
        lemma_output_scalar_id(s, t, e.last().1, kind);
        assert(e.drop_last().push((e.last().0, e.last().1)) =~= e);
    } else {
        assert(e =~= Seq::empty());
    }
}

/// Output normalization rewrites Timestamp positions only: where no
/// Timestamp type is reachable from message type `md` (`t` holds `md` and
/// is closed under the types that fields name, with no Timestamp in it),
/// `normalize_output_value` gives back every JSON value as it is, keys that
/// name no field included.
pub proof fn law_output_without_timestamps(s: Schema, t: Set<nat>, md: nat, j: JsonV)
    requires
        s.wf(),
        timestamp_free_closure(s, t),
        t.contains(md),
    ensures
        output_value_spec(s, j, md) == Ok::<JsonV, ErrorV>(j),
{
    lemma_output_value_id(s, t, j, md);
}

} // verus!

verus! {

/// The JSON that the type mapping gives value `v` of field `f`, one level
/// deep: a bool as a JSON bool; every integer kind as a JSON number of the
/// same value; a float as its number; a string as itself; bytes as standard
/// padded base64 text; an enum number as the name that its enum declares for
/// it, else as the number; a Timestamp as chrono's RFC 3339 text of its
/// seconds and nanos; any other message as the object that
/// `message_to_json` writes for it; a list as an array of its items' JSON,
/// in order; a map as an object with one entry per key, in order, keyed by
/// the key's text.
pub open spec fn maps_to(s: Schema, v: ValueV, f: FieldDescriptor, j: JsonV) -> bool {
    if is_timestamp_kind(s, f.kind) && v is Message {
        &&& timestamp_parts(s, v->Message_0) matches Some((_, secs, _, nanos))
        &&& 0 <= nanos
        &&& j matches JsonV::Str(t)
        &&& rfc3339_format_spec(secs, nanos as u32) == Some(t)
    } else {
        match v {
            ValueV::Bool(b) => j == JsonV::Bool(b),
            ValueV::I32(x) => j == JsonV::Number(json_int(x as int)),
            ValueV::I64(x) => j == JsonV::Number(json_int(x as int)),
            ValueV::U32(x) => j == JsonV::Number(json_int(x as int)),
            ValueV::U64(x) => j == JsonV::Number(json_int(x as int)),
            ValueV::F32(x) => j == JsonV::Number(float_json(x)),
            ValueV::F64(x) => j == JsonV::Number(float_json(x)),
            ValueV::Str(t) => j == JsonV::Str(t),
            ValueV::Bytes(b) => j == JsonV::Str(base64_encode_spec(b)),
            ValueV::EnumNumber(n) => j == match f.kind {
                Kind::Enum(e) => match enum_name_spec(s.enums@[e as int].values@, n) {
                    Some(name) => JsonV::Str(name),
                    None => JsonV::Number(json_int(n as int)),
                },
                _ => JsonV::Number(json_int(n as int)),
            },
            ValueV::Message(m) => message_to_json_spec(s, m) == Ok::<JsonV, ErrorV>(j),
            ValueV::List(l) => {
                &&& j matches JsonV::Array(a)
                &&& a.len() == l.len()
                &&& forall|i: int|
                    0 <= i < l.len() ==> value_to_json_spec(s, #[trigger] l[i], f) == Ok::<
                        JsonV,
                        ErrorV,
                    >(a[i])
            },
            ValueV::MapOf(e) => {
                &&& j matches JsonV::Object(o)
                &&& o.len() == e.len()
                &&& forall|i: int|
                    0 <= i < e.len() ==> (#[trigger] o[i]).0 == map_key_text(e[i].0)
                        && value_to_json_spec(
                        s,
                        e[i].1,
                        map_value_writer(e[i].1, f, map_value_field(s, f)),
                    ) == Ok::<JsonV, ErrorV>(o[i].1)
            },
        }
    }
}

proof fn lemma_list_json_items(s: Schema, l: Seq<ValueV>, f: FieldDescriptor)
    requires
        list_json_spec(s, l, f) is Ok,
    ensures
        list_json_spec(s, l, f)->Ok_0.len() == l.len(),
        forall|i: int|
            0 <= i < l.len() ==> value_to_json_spec(s, #[trigger] l[i], f) == Ok::<JsonV, ErrorV>(
                list_json_spec(s, l, f)->Ok_0[i],
            ),
    decreases l.len(),
{
    if l.len() > 0 {
        lemma_list_json_items(s, l.drop_last(), f);
        assert forall|i: int| 0 <= i < l.len() implies value_to_json_spec(s, #[trigger] l[i], f)
            == Ok::<JsonV, ErrorV>(list_json_spec(s, l, f)->Ok_0[i]) by {
            if i < l.len() - 1 {
                assert(l.drop_last()[i] == l[i]);
            }
        }
    }
}

proof fn lemma_entries_json_items(
    s: Schema,
    e: Seq<(MapKeyV, ValueV)>,
    mf: FieldDescriptor,
    vf: FieldDescriptor,
)
    requires
        entries_json_spec(s, e, mf, vf) is Ok,
    ensures
        entries_json_spec(s, e, mf, vf)->Ok_0.len() == e.len(),
        forall|i: int|
            0 <= i < e.len() ==> (#[trigger] entries_json_spec(s, e, mf, vf)->Ok_0[i]).0
                == map_key_text(e[i].0) && value_to_json_spec(
                s,
                e[i].1,
                map_value_writer(e[i].1, mf, vf),
            ) == Ok::<JsonV, ErrorV>(entries_json_spec(s, e, mf, vf)->Ok_0[i].1),
    decreases e.len(),
{
    if e.len() > 0 {
        lemma_entries_json_items(s, e.drop_last(), mf, vf);
        let o = entries_json_spec(s, e, mf, vf)->Ok_0;
        assert forall|i: int| 0 <= i < e.len() implies (#[trigger] o[i]).0 == map_key_text(e[i].0)
            && value_to_json_spec(s, e[i].1, map_value_writer(e[i].1, mf, vf)) == Ok::<
            JsonV,
            ErrorV,
        >(o[i].1) by {
            if i < e.len() - 1 {
                assert(e.drop_last()[i] == e[i]);
            }
        }
    }
}

/// The JSON written for a value is what the type mapping gives it.
proof fn lemma_maps_to(s: Schema, v: ValueV, f: FieldDescriptor)
    requires
        value_to_json_spec(s, v, f) is Ok,
    ensures
        maps_to(s, v, f, value_to_json_spec(s, v, f)->Ok_0),
{
    if !(is_timestamp_kind(s, f.kind) && v is Message) {
        match v {
            ValueV::List(l) => lemma_list_json_items(s, l, f),
            ValueV::MapOf(e) => lemma_entries_json_items(s, e, f, map_value_field(s, f)),
            _ => {},
        }
    }
}

/// Each set field's JSON is written once the entries of the first `k`
/// fields are.
proof fn lemma_fields_json_values(s: Schema, m: MessageV, k: nat)
    requires
        fields_json_spec(s, m, k) is Ok,
    ensures
        forall|q: nat|
            q < k ==> (#[trigger] entry_index(m.fields, q) matches Some(j) ==> value_to_json_spec(
                s,
                m.fields[j].1,
                s.messages@[m.descriptor as int].fields@[q as int],
            ) is Ok),
    decreases k,
{
    if k > 0 {
        lemma_fields_json_values(s, m, (k - 1) as nat);
    }
}

/// The type mapping: the JSON written for a message is an object that
/// holds, for each field of its type that is set, the field's name with
/// the JSON that the type mapping gives the field's value (see `maps_to`);
/// it also holds `[]` for each unset list, `{}` for each unset map, and
/// nothing else (`law_json_object_keys`). `message_to_json` writes every
/// message whose Timestamps are valid (its contract).
pub proof fn law_type_mapping(s: Schema, m: MessageV)
    requires
        message_to_json_spec(s, m) is Ok,
    ensures
        ({
            let fs = s.messages@[m.descriptor as int].fields@;
            let o = message_to_json_spec(s, m)->Ok_0->Object_0;
            forall|q: nat|
                q < fs.len() ==> (#[trigger] entry_index(m.fields, q) matches Some(j) ==> exists|
                    jv: JsonV,
                | #![trigger maps_to(s, m.fields[j].1, fs[q as int], jv)]
                    holds_entry(o, (fs[q as int].name@, jv)) && maps_to(
                        s,
                        m.fields[j].1,
                        fs[q as int],
                        jv,
                    ))
        }),
{
    let fs = s.messages@[m.descriptor as int].fields@;
    let o = message_to_json_spec(s, m)->Ok_0->Object_0;
    lemma_object_of_fields(s, m, fs.len());
    lemma_fields_json_values(s, m, fs.len());
    assert forall|q: nat| q < fs.len() && #[trigger] entry_index(m.fields, q) is Some implies exists|
        jv: JsonV,
    | #![trigger maps_to(s, m.fields[entry_index(m.fields, q)->Some_0].1, fs[q as int], jv)]
        holds_entry(o, (fs[q as int].name@, jv)) && maps_to(
            s,
            m.fields[entry_index(m.fields, q)->Some_0].1,
            fs[q as int],
            jv,
        ) by {
        let j = entry_index(m.fields, q)->Some_0;
        assert(emitted(s, m, q));
        let jv = value_to_json_spec(s, m.fields[j].1, fs[q as int])->Ok_0;
        lemma_maps_to(s, m.fields[j].1, fs[q as int]);
        assert(holds_entry(o, (fs[q as int].name@, jv)));
    }
}

} // verus!

verus! {

/// Each field of the message type (with fields `fs`) is set at most once
/// in `f`, and at most one field of each oneof.
pub open spec fn exclusive_fields(fs: Seq<FieldDescriptor>, f: Seq<(nat, ValueV)>) -> bool {
    &&& forall|i: int| 0 <= i < f.len() ==> (#[trigger] f[i]).0 < fs.len()
    &&& forall|i: int, j: int|
        0 <= i < j < f.len() ==> !conflicts(fs, #[trigger] f[i].0, #[trigger] f[j].0)
}

/// What setting field `fi` keeps of the fields: entries of them, none of
/// which `fi` clears, and no two of which clear each other.
proof fn lemma_drop_conflicts_kept(p: Seq<(nat, ValueV)>, fs: Seq<FieldDescriptor>, fi: nat)
    requires
        exclusive_fields(fs, p),
    ensures
        exclusive_fields(fs, drop_conflicts(p, fs, fi)),
        forall|k: int|
            0 <= k < drop_conflicts(p, fs, fi).len() ==> !conflicts(
                fs,
                (#[trigger] drop_conflicts(p, fs, fi)[k]).0,
                fi,
            ) && exists|q: int| 0 <= q < p.len() && p[q] == drop_conflicts(p, fs, fi)[k],
    decreases p.len(),
{
    if p.len() > 0 {
        let d = p.drop_last();
        assert forall|i: int, j: int| 0 <= i < j < d.len() implies !conflicts(
            fs,
            #[trigger] d[i].0,
            #[trigger] d[j].0,
        ) by {
            assert(d[i] == p[i] && d[j] == p[j]);
        }
        assert forall|i: int| 0 <= i < d.len() implies (#[trigger] d[i]).0 < fs.len() by {
            assert(d[i] == p[i]);
        }
        lemma_drop_conflicts_kept(d, fs, fi);
        let r0 = drop_conflicts(d, fs, fi);
        let r = drop_conflicts(p, fs, fi);
        assert forall|k: int| 0 <= k < r0.len() implies exists|q: int|
            0 <= q < p.len() && p[q] == #[trigger] r0[k] by {
            let q = choose|q: int| 0 <= q < d.len() && d[q] == r0[k];
            assert(p[q] == d[q]);
        }
        if !conflicts(fs, p.last().0, fi) {
            assert(r == r0.push(p.last()));
            assert forall|i: int, j: int| 0 <= i < j < r.len() implies !conflicts(
                fs,
                #[trigger] r[i].0,
                #[trigger] r[j].0,
            ) by {
                if j == r.len() - 1 {
                    let q = choose|q: int| 0 <= q < d.len() && d[q] == r0[i];
                    assert(r[i] == p[q]);
                    assert(r[j] == p[p.len() - 1]);
                } else {
                    assert(r[i] == r0[i] && r[j] == r0[j]);
                }
            }
            assert forall|k: int| 0 <= k < r.len() implies !conflicts(fs, (#[trigger] r[k]).0, fi)
                && exists|q: int| 0 <= q < p.len() && p[q] == r[k] by {
                if k == r.len() - 1 {
                    assert(p[p.len() - 1] == r[k]);
                } else {
                    assert(r[k] == r0[k]);
                }
            }
        }
    }
}

/// The fields that a JSON object's entries set: each field at most once,
/// and at most one field of each oneof.
proof fn lemma_entries_exclusive(s: Schema, md: nat, e: Seq<(Seq<char>, JsonV)>)
    requires
        message_entries_spec(s, md, e) is Ok,
    ensures
        exclusive_fields(s.messages@[md as int].fields@, message_entries_spec(s, md, e)->Ok_0),
    decreases e.len(),
{
    if e.len() > 0 {
        lemma_entries_exclusive(s, md, e.drop_last());
        let fs = s.messages@[md as int].fields@;
        let p = message_entries_spec(s, md, e.drop_last())->Ok_0;
        let fi = field_index_spec(fs, e.last().0)->Some_0;
        crate::schema::lemma_field_index(fs, e.last().0);
        lemma_drop_conflicts_kept(p, fs, fi);
        let d = drop_conflicts(p, fs, fi);
        let r = message_entries_spec(s, md, e)->Ok_0;
        assert(r == d.push((fi, r.last().1)));
        assert forall|i: int| 0 <= i < r.len() implies (#[trigger] r[i]).0 < fs.len() by {
            if i < d.len() {
                assert(r[i] == d[i]);
            }
        }
        assert forall|i: int, j: int| 0 <= i < j < r.len() implies !conflicts(
            fs,
            #[trigger] r[i].0,
            #[trigger] r[j].0,
        ) by {
            assert(r[i] == d[i]);
            if j < d.len() {
                assert(r[j] == d[j]);
            }
        }
    }
}

/// The message that `json_to_proto` gives has each field of its type set
/// at most once and at most one field of each oneof set: as prost-reflect's
/// `set_field` does, a later entry of the document replaces an earlier one
/// of the same field or of the same oneof.
pub proof fn law_oneof_exclusive(s: Schema, parsed: Result<JsonV, Seq<char>>, message_type: Seq<char>)
    requires
        json_to_proto_spec(s, parsed, message_type) is Ok,
    ensures
        ({
            let m = json_to_proto_spec(s, parsed, message_type)->Ok_0;
            exclusive_fields(s.messages@[m.descriptor as int].fields@, m.fields)
        }),
{
    let md = get_message_descriptor_spec(s, message_type)->Ok_0;
    lemma_entries_exclusive(s, md, parsed->Ok_0->Object_0);
}

} // verus!
