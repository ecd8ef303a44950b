//! What single calls give, stated by their inputs: a message type and a
//! field found by name, the text of a scalar field, a scalar read from
//! JSON, a Timestamp written canonically, and a path with a quoted map key.

use vstd::prelude::*;

use crate::error::ErrorV;
use crate::external::{base64_decode_spec, base64_encode_spec, rfc3339_format_spec};
use crate::extract::{extract_field_value_spec, resolve_enum_spec, value_text_spec, PieceV};
use crate::from_json::{finite_f32_spec, finite_f64_spec, json_to_proto_spec};
use crate::json::{JsonNumber, JsonV};
use crate::numeric::{bool_text, int_text};
use crate::path::{find_from, lemma_find_from, parse_path_from, parse_path_spec, PathPartV};
use crate::path_laws::{law_field_name_path, plain_name};
use crate::schema::{
    field_index_spec, get_message_descriptor_spec, lemma_field_index, message_index_spec,
    FieldDescriptor, Kind, MessageDescriptor, Schema,
};
use crate::to_json::{get_field_spec, timestamp_full_name};
use crate::value::{MessageV, ValueV};
use crate::well_known_types::{output_value_spec, timestamp_in_range, timestamp_json_spec};

verus! {

proof fn lemma_message_index_first(messages: Seq<MessageDescriptor>, name: Seq<char>)
    ensures
        message_index_spec(messages, name) matches Some(i) ==> i < messages.len()
            && messages[i as int].full_name@ == name && forall|k: int|
            0 <= k < i ==> #[trigger] messages[k].full_name@ != name,
        message_index_spec(messages, name) is None ==> forall|k: int|
            0 <= k < messages.len() ==> #[trigger] messages[k].full_name@ != name,
    decreases messages.len(),
{
    if messages.len() > 0 {
        let d = messages.drop_last();
        lemma_message_index_first(d, name);
        assert forall|k: int| 0 <= k < d.len() implies #[trigger] messages[k] == d[k] by {}
    }
}

/// Looking a message type up by its full name finds the first type of the
/// schema with that name, whichever position it holds; the lookup fails,
/// naming the name, exactly when no type has it.
pub proof fn law_message_lookup(s: Schema, name: Seq<char>)
    ensures
        forall|i: int|
            0 <= i < s.messages@.len() && #[trigger] s.messages@[i].full_name@ == name && (forall|
                k: int,
            |
                0 <= k < i ==> #[trigger] s.messages@[k].full_name@ != name) ==> get_message_descriptor_spec(
                s,
                name,
            ) == Ok::<nat, ErrorV>(i as nat),
        (forall|k: int| 0 <= k < s.messages@.len() ==> #[trigger] s.messages@[k].full_name@ != name)
            ==> get_message_descriptor_spec(s, name) == Err::<nat, ErrorV>(
            ErrorV::MessageTypeNotFound(name),
        ),
{
    lemma_message_index_first(s.messages@, name);
    assert forall|i: int|
        0 <= i < s.messages@.len() && #[trigger] s.messages@[i].full_name@ == name && (forall|k: int|
            0 <= k < i ==> #[trigger] s.messages@[k].full_name@ != name) implies get_message_descriptor_spec(
        s,
        name,
    ) == Ok::<nat, ErrorV>(i as nat) by {
        match message_index_spec(s.messages@, name) {
            Some(j) => {
                if (j as int) < i {
                    assert(s.messages@[j as int].full_name@ == name);
                } else if (j as int) > i {
                    assert(s.messages@[i].full_name@ != name);
                }
            },
            None => {
                assert(s.messages@[i].full_name@ != name);
            },
        }
    }
}

/// In a well-formed schema, where field names are distinct, every field of
/// a message type is found by its name, and no other name finds a field.
pub proof fn law_field_lookup(s: Schema, md: nat, name: Seq<char>)
    requires
        s.wf(),
        md < s.messages@.len(),
    ensures
        forall|i: int|
            0 <= i < s.messages@[md as int].fields@.len() && #[trigger] s.messages@[md as int].fields@[i].name@
                == name ==> field_index_spec(s.messages@[md as int].fields@, name) == Some(i as nat),
        (forall|k: int|
            0 <= k < s.messages@[md as int].fields@.len() ==> #[trigger] s.messages@[md as int].fields@[k].name@
                != name) ==> field_index_spec(s.messages@[md as int].fields@, name) is None,
{
    let fs = s.messages@[md as int].fields@;
    lemma_field_index(fs, name);
    assert forall|i: int| 0 <= i < fs.len() && #[trigger] fs[i].name@ == name implies field_index_spec(
        fs,
        name,
    ) == Some(i as nat) by {
        let j = field_index_spec(fs, name)->Some_0;
        if j as int != i {
            if (j as int) < i {
                assert(s.messages@[md as int].fields@[j as int] == fs[j as int]);
                assert(fs[j as int].name@ != fs[i].name@);
            } else {
                assert(fs[i].name@ != fs[j as int].name@);
            }
        }
    }
}

/// A scalar field read by its plain name gives one piece of text: `true` or
/// `false` for a bool, the decimal digits (with `-` when negative) for an
/// integer, the string itself, standard padded base64 for bytes, and for a
/// float the text that it was decoded with (or, for a float read from JSON,
/// that JSON number, whose text app/ writes).
pub proof fn law_scalar_field_text(s: Schema, m: MessageV, fi: nat)
    requires
        s.wf(),
        m.descriptor < s.messages@.len(),
        fi < s.messages@[m.descriptor as int].fields@.len(),
        plain_name(s.messages@[m.descriptor as int].fields@[fi as int].name@),
    ensures
        ({
            let r = extract_field_value_spec(
                s,
                m,
                s.messages@[m.descriptor as int].fields@[fi as int].name@,
            );
            match get_field_spec(s, m, fi) {
                ValueV::Bool(b) => r == Ok::<Seq<PieceV>, ErrorV>(
                    seq![PieceV::Text(if b { "true"@ } else { "false"@ })],
                ),
                ValueV::I32(x) => r == Ok::<Seq<PieceV>, ErrorV>(seq![PieceV::Text(int_text(x as int))]),
                ValueV::I64(x) => r == Ok::<Seq<PieceV>, ErrorV>(seq![PieceV::Text(int_text(x as int))]),
                ValueV::U32(x) => r == Ok::<Seq<PieceV>, ErrorV>(seq![PieceV::Text(int_text(x as int))]),
                ValueV::U64(x) => r == Ok::<Seq<PieceV>, ErrorV>(seq![PieceV::Text(int_text(x as int))]),
                ValueV::Str(t) => r == Ok::<Seq<PieceV>, ErrorV>(seq![PieceV::Text(t)]),
                ValueV::Bytes(b) => r == Ok::<Seq<PieceV>, ErrorV>(
                    seq![PieceV::Text(base64_encode_spec(b))],
                ),
                ValueV::F32(crate::value::FloatReprV::Decoded { text, .. }) | ValueV::F64(
                    crate::value::FloatReprV::Decoded { text, .. },
                ) => r == Ok::<Seq<PieceV>, ErrorV>(seq![PieceV::Text(text)]),
                ValueV::F32(crate::value::FloatReprV::FromJson(n)) | ValueV::F64(
                    crate::value::FloatReprV::FromJson(n),
                ) => r == Ok::<Seq<PieceV>, ErrorV>(seq![PieceV::Json(JsonV::Number(n))]),
                _ => true,
            }
        }),
{
    law_field_name_path(s, m, fi);
    reveal_strlit("true");
    reveal_strlit("false");
    assert(bool_text(true) =~= "true"@);
    assert(bool_text(false) =~= "false"@);
}

/// The message with the one field `fi` of message type `md` set to `v`.
pub open spec fn single_field(md: nat, fi: nat, v: ValueV) -> MessageV {
    MessageV { descriptor: md, fields: seq![(fi, v)] }
}

/// A JSON object with one entry for a singular scalar field reads as the
/// message with that field set to what the entry holds: a JSON bool as that
/// bool, a string as that string, base64 text as the bytes it decodes to,
/// and a finite number, for a `double` or (fitting) a `float`, as that very
/// number.
pub proof fn law_scalar_json_read(s: Schema, md: nat, fi: nat, j: JsonV, message_type: Seq<char>)
    requires
        s.wf(),
        get_message_descriptor_spec(s, message_type) == Ok::<nat, ErrorV>(md),
        md < s.messages@.len(),
        fi < s.messages@[md as int].fields@.len(),
        !s.messages@[md as int].fields@[fi as int].is_list,
        !s.messages@[md as int].fields@[fi as int].is_map,
    ensures
        ({
            let f = s.messages@[md as int].fields@[fi as int];
            let r = json_to_proto_spec(s, Ok(JsonV::Object(seq![(f.name@, j)])), message_type);
            &&& (f.kind is Bool && j is Bool) ==> r == Ok::<MessageV, ErrorV>(
                single_field(md, fi, ValueV::Bool(j->Bool_0)),
            )
            &&& (f.kind is String && j is Str) ==> r == Ok::<MessageV, ErrorV>(
                single_field(md, fi, ValueV::Str(j->Str_0)),
            )
            &&& (f.kind is Bytes && j is Str && base64_decode_spec(j->Str_0) is Ok) ==> r == Ok::<
                MessageV,
                ErrorV,
            >(single_field(md, fi, ValueV::Bytes(base64_decode_spec(j->Str_0)->Ok_0)))
            &&& (f.kind is Double && j is Number && finite_f64_spec(j->Number_0)) ==> r == Ok::<
                MessageV,
                ErrorV,
            >(single_field(md, fi, ValueV::F64(crate::value::FloatReprV::FromJson(j->Number_0))))
            &&& (f.kind is Float && j is Number && finite_f32_spec(j->Number_0)) ==> r == Ok::<
                MessageV,
                ErrorV,
            >(single_field(md, fi, ValueV::F32(crate::value::FloatReprV::FromJson(j->Number_0))))
        }),
{
    let fs = s.messages@[md as int].fields@;
    let f = fs[fi as int];
    crate::schema::lemma_message_index(s.messages@, message_type);
    law_field_lookup(s, md, f.name@);
    let e = seq![(f.name@, j)];
    assert(e.drop_last() =~= Seq::<(Seq<char>, JsonV)>::empty());
    assert(e.last() == (f.name@, j));
    assert(crate::from_json::drop_conflicts(Seq::empty(), fs, fi) =~= Seq::<(nat, ValueV)>::empty());
    assert(s.messages@[md as int].fields@[fi as int].name@ == f.name@);
    assert(field_index_spec(fs, f.name@) == Some(fi));
    assert(crate::from_json::message_entries_spec(s, md, Seq::empty()) == Ok::<
        Seq<(nat, ValueV)>,
        ErrorV,
    >(Seq::empty()));
    if crate::from_json::field_value_spec(s, j, f) is Ok {
        let v = crate::from_json::field_value_spec(s, j, f)->Ok_0;
        assert(Seq::<(nat, ValueV)>::empty().push((fi, v)) =~= seq![(fi, v)]);
        assert(crate::from_json::message_entries_spec(s, md, e) == Ok::<
            Seq<(nat, ValueV)>,
            ErrorV,
        >(seq![(fi, v)]));
        assert(json_to_proto_spec(s, Ok(JsonV::Object(e)), message_type) == Ok::<MessageV, ErrorV>(
            single_field(md, fi, v),
        ));
    }
}

/// Output normalization writes a Timestamp field given as RFC 3339 text as
/// the canonical text of the same instant: the seconds and nanoseconds that
/// prost-reflect's reader reads from the text, within the ProtoJSON range,
/// written by chrono (where chrono has no such instant, it is an error).
pub proof fn law_output_timestamp_text(s: Schema, md: nat, fi: nat, t: Seq<char>)
    requires
        s.wf(),
        md < s.messages@.len(),
        s.messages@[md as int].full_name@ != timestamp_full_name(),
        fi < s.messages@[md as int].fields@.len(),
        !s.messages@[md as int].fields@[fi as int].is_list,
        !s.messages@[md as int].fields@[fi as int].is_map,
        s.messages@[md as int].fields@[fi as int].kind matches Kind::Message(tmd)
            && s.messages@[tmd as int].full_name@ == timestamp_full_name(),
        timestamp_json_spec(t) matches Ok((secs, nanos)) && timestamp_in_range(secs, nanos),
    ensures
        ({
            let name = s.messages@[md as int].fields@[fi as int].name@;
            let (secs, nanos) = timestamp_json_spec(t)->Ok_0;
            let r = output_value_spec(s, JsonV::Object(seq![(name, JsonV::Str(t))]), md);
            &&& rfc3339_format_spec(secs, nanos as u32) matches Some(u) ==> r == Ok::<JsonV, ErrorV>(
                JsonV::Object(seq![(name, JsonV::Str(u))]),
            )
            &&& rfc3339_format_spec(secs, nanos as u32) is None ==> r is Err
        }),
{
    let fs = s.messages@[md as int].fields@;
    let name = fs[fi as int].name@;
    law_field_lookup(s, md, name);
    let e = seq![(name, JsonV::Str(t))];
    assert(e.drop_last() =~= Seq::<(Seq<char>, JsonV)>::empty());
    assert(e.last() == (name, JsonV::Str(t)));
    let tmd = fs[fi as int].kind->Message_0;
    assert(s.messages@[md as int].fields@[fi as int].name@ == name);
    assert(field_index_spec(fs, name) == Some(fi));
    assert(crate::well_known_types::output_entries_spec(s, Seq::empty(), md) == Ok::<
        Seq<(Seq<char>, JsonV)>,
        ErrorV,
    >(Seq::empty()));
    let o = crate::well_known_types::output_timestamp_spec(JsonV::Str(t));
    assert(output_value_spec(s, JsonV::Str(t), tmd as nat) == o);
    assert(crate::well_known_types::output_field_spec(s, JsonV::Str(t), fs[fi as int]) == o);
    if let Ok(u) = o {
        assert(Seq::<(Seq<char>, JsonV)>::empty().push((name, u)) =~= seq![(name, u)]);
        assert(crate::well_known_types::output_entries_spec(s, e, md) == Ok::<
            Seq<(Seq<char>, JsonV)>,
            ErrorV,
        >(seq![(name, u)]));
    }
}

/// A path made of a plain field name, a map key in quotes (`'` or `"`,
/// holding no such quote) and then `.` and more path reads as that field,
/// that key, and then all that the rest reads as: `users['alice'].email`
/// reaches `email` in the entry `alice` of `users`.
pub proof fn law_quoted_key_path(name: Seq<char>, q: char, k: Seq<char>, rest: Seq<char>)
    requires
        plain_name(name),
        q == '\'' || q == '"',
        forall|i: int| 0 <= i < k.len() ==> #[trigger] k[i] != q,
        parse_path_spec(rest) is Ok,
    ensures
        parse_path_spec(name + seq!['[', q] + k + seq![q, ']', '.'] + rest) == Ok::<
            Seq<PathPartV>,
            Seq<char>,
        >(seq![PathPartV::Field(name), PathPartV::MapKey(k)] + parse_path_spec(rest)->Ok_0),
{
    let pre = name + seq!['[', q] + k + seq![q, ']', '.'];
    let s = pre + rest;
    let n = name.len() as int;
    assert forall|p: int| 0 <= p < n implies #[trigger] s[p] != '.' && s[p] != '[' by {
        assert(s[p] == name[p]);
    }
    crate::path_laws::lemma_path_run(s, 0, n, Seq::empty(), Seq::empty());
    assert(Seq::<char>::empty() + s.subrange(0, n) =~= name);
    assert(s[n] == '[');
    assert(s[n + 1] == q);
    let jq = n + 2 + k.len();
    assert(s[jq] == q);
    assert(s[jq + 1] == ']');
    assert(s[jq + 2] == '.');
    lemma_find_from(s, n + 2, q);
    let j = find_from(s, n + 2, q);
    assert forall|p: int| n + 2 <= p < jq implies #[trigger] s[p] != q by {
        assert(s[p] == k[p - n - 2]);
    }
    assert(j == jq);
    assert(s.subrange(n + 2, j) =~= k);
    let parts = seq![PathPartV::Field(name), PathPartV::MapKey(k)];
    assert(Seq::<PathPartV>::empty().push(PathPartV::Field(name)).push(PathPartV::MapKey(k)) =~= parts);
    assert(parse_path_from(s, n, name, Seq::empty()) == parse_path_from(s, jq + 2, Seq::empty(), parts));
    assert(parse_path_from(s, jq + 2, Seq::empty(), parts) == parse_path_from(
        s,
        jq + 3,
        Seq::empty(),
        parts,
    ));
    assert(pre.len() == jq + 3);
    crate::path_laws::lemma_path_shift(pre, rest, 0, Seq::empty(), parts);
    assert(pre.len() + 0 == jq + 3);
    crate::path_laws::lemma_parts_prefix(rest, 0, Seq::empty(), Seq::empty(), parts);
    assert(parts + Seq::<PathPartV>::empty() =~= parts);
}

/// With distinct names, an enum value's own name reads as its number.
proof fn lemma_enum_number_of(values: Seq<crate::schema::EnumValueDescriptor>, i: int)
    requires
        0 <= i < values.len(),
        forall|a: int, b: int|
            0 <= a < b < values.len() ==> #[trigger] values[a].name@ != #[trigger] values[b].name@,
    ensures
        crate::from_json::enum_number_spec(values, values[i].name@) == Some(values[i].number),
    decreases i,
{
    if i > 0 {
        let rest = values.drop_first();
        assert forall|a: int, b: int| 0 <= a < b < rest.len() implies #[trigger] rest[a].name@
            != #[trigger] rest[b].name@ by {
            assert(rest[a] == values[a + 1]);
            assert(rest[b] == values[b + 1]);
        }
        assert(rest[i - 1] == values[i]);
        assert(values[0].name@ != values[i].name@);
        lemma_enum_number_of(rest, i - 1);
    }
}

/// An enum field given the name of one of its enum's values reads as that
/// value's number; given a number that fits `int32`, as that number.
pub proof fn law_enum_json_read(s: Schema, md: nat, fi: nat, message_type: Seq<char>, vi: int, n: i32)
    requires
        s.wf(),
        get_message_descriptor_spec(s, message_type) == Ok::<nat, ErrorV>(md),
        md < s.messages@.len(),
        fi < s.messages@[md as int].fields@.len(),
        !s.messages@[md as int].fields@[fi as int].is_list,
        !s.messages@[md as int].fields@[fi as int].is_map,
        s.messages@[md as int].fields@[fi as int].kind is Enum,
        0 <= vi < s.enums@[s.messages@[md as int].fields@[fi as int].kind->Enum_0 as int].values@.len(),
    ensures
        ({
            let f = s.messages@[md as int].fields@[fi as int];
            let value = s.enums@[f.kind->Enum_0 as int].values@[vi];
            &&& json_to_proto_spec(
                s,
                Ok(JsonV::Object(seq![(f.name@, JsonV::Str(value.name@))])),
                message_type,
            ) == Ok::<MessageV, ErrorV>(single_field(md, fi, ValueV::EnumNumber(value.number)))
            &&& json_to_proto_spec(
                s,
                Ok(JsonV::Object(seq![(f.name@, JsonV::Number(crate::to_json::json_int(n as int)))])),
                message_type,
            ) == Ok::<MessageV, ErrorV>(single_field(md, fi, ValueV::EnumNumber(n)))
        }),
{
    let fs = s.messages@[md as int].fields@;
    let f = fs[fi as int];
    let e = f.kind->Enum_0;
    assert(s.message_wf(s.messages@[md as int]));
    assert(s.field_wf(f));
    let values = s.enums@[e as int].values@;
    assert forall|a: int, b: int| 0 <= a < b < values.len() implies #[trigger] values[a].name@
        != #[trigger] values[b].name@ by {
        assert(s.enums@[e as int].values@[a] == values[a]);
        assert(s.enums@[e as int].values@[b] == values[b]);
    }
    lemma_enum_number_of(values, vi);
    law_field_lookup(s, md, f.name@);
    assert(s.messages@[md as int].fields@[fi as int].name@ == f.name@);
    assert(crate::from_json::message_entries_spec(s, md, Seq::empty()) == Ok::<
        Seq<(nat, ValueV)>,
        ErrorV,
    >(Seq::empty()));
    let j1 = JsonV::Str(values[vi].name@);
    let j2 = JsonV::Number(crate::to_json::json_int(n as int));
    let v1 = ValueV::EnumNumber(values[vi].number);
    let v2 = ValueV::EnumNumber(n);
    let e1 = seq![(f.name@, j1)];
    let e2 = seq![(f.name@, j2)];
    assert(e1.drop_last() =~= Seq::<(Seq<char>, JsonV)>::empty());
    assert(e2.drop_last() =~= Seq::<(Seq<char>, JsonV)>::empty());
    assert(crate::from_json::field_value_spec(s, j1, f) == Ok::<ValueV, ErrorV>(v1));
    assert(crate::from_json::field_value_spec(s, j2, f) == Ok::<ValueV, ErrorV>(v2));
    assert(Seq::<(nat, ValueV)>::empty().push((fi, v1)) =~= seq![(fi, v1)]);
    assert(Seq::<(nat, ValueV)>::empty().push((fi, v2)) =~= seq![(fi, v2)]);
    assert(crate::from_json::message_entries_spec(s, md, e1) == Ok::<Seq<(nat, ValueV)>, ErrorV>(
        seq![(fi, v1)],
    ));
    assert(crate::from_json::message_entries_spec(s, md, e2) == Ok::<Seq<(nat, ValueV)>, ErrorV>(
        seq![(fi, v2)],
    ));
}

/// A JSON entry whose name is the name of no field of the message type is
/// refused, naming the entry and the type; unknown fields are never
/// dropped.
pub proof fn law_unknown_field(s: Schema, md: nat, name: Seq<char>, j: JsonV, message_type: Seq<char>)
    requires
        s.wf(),
        get_message_descriptor_spec(s, message_type) == Ok::<nat, ErrorV>(md),
        md < s.messages@.len(),
        forall|k: int|
            0 <= k < s.messages@[md as int].fields@.len() ==> #[trigger] s.messages@[md as int].fields@[k].name@
                != name,
    ensures
        json_to_proto_spec(s, Ok(JsonV::Object(seq![(name, j)])), message_type) == Err::<
            MessageV,
            ErrorV,
        >(ErrorV::FieldNotFound(name, s.messages@[md as int].full_name@)),
{
    law_field_lookup(s, md, name);
    let e = seq![(name, j)];
    assert(e.drop_last() =~= Seq::<(Seq<char>, JsonV)>::empty());
    assert(crate::from_json::message_entries_spec(s, md, Seq::empty()) == Ok::<
        Seq<(nat, ValueV)>,
        ErrorV,
    >(Seq::empty()));
}

/// A Timestamp field given RFC 3339 text that chrono reads as `secs` and
/// `nanos` reads as a Timestamp message whose `seconds` field holds `secs`
/// and whose `nanos` field holds `nanos` (where the two fields are in no
/// oneof).
pub proof fn law_timestamp_json_read(s: Schema, md: nat, fi: nat, t: Seq<char>, message_type: Seq<char>)
    requires
        s.wf(),
        get_message_descriptor_spec(s, message_type) == Ok::<nat, ErrorV>(md),
        md < s.messages@.len(),
        fi < s.messages@[md as int].fields@.len(),
        !s.messages@[md as int].fields@[fi as int].is_list,
        !s.messages@[md as int].fields@[fi as int].is_map,
        s.messages@[md as int].fields@[fi as int].kind matches Kind::Message(tmd)
            && s.messages@[tmd as int].full_name@ == timestamp_full_name(),
        crate::external::rfc3339_parse_spec(t) is Some,
    ensures
        ({
            let f = s.messages@[md as int].fields@[fi as int];
            let tmd = f.kind->Message_0;
            let tfs = s.messages@[tmd as int].fields@;
            let (secs, nanos) = crate::external::rfc3339_parse_spec(t)->Some_0;
            let r = json_to_proto_spec(s, Ok(JsonV::Object(seq![(f.name@, JsonV::Str(t))])), message_type);
            let si = field_index_spec(tfs, "seconds"@)->Some_0;
            let ni = field_index_spec(tfs, "nanos"@)->Some_0;
            (field_index_spec(tfs, "seconds"@) is Some && field_index_spec(tfs, "nanos"@) is Some
                && tfs[si as int].oneof is None && tfs[ni as int].oneof is None) ==> {
                &&& r matches Ok(m) && m.descriptor == md && m.fields.len() == 1 && m.fields[0].0 == fi
                &&& r->Ok_0.fields[0].1 matches ValueV::Message(sub)
                &&& sub.descriptor == tmd
                &&& get_field_spec(s, sub, si) == ValueV::I64(secs)
                &&& get_field_spec(s, sub, ni) == ValueV::I32(nanos as i32)
            }
        }),
{
    let fs = s.messages@[md as int].fields@;
    let f = fs[fi as int];
    let tmd = f.kind->Message_0;
    let tfs = s.messages@[tmd as int].fields@;
    assert(s.message_wf(s.messages@[md as int]));
    assert(s.field_wf(f));
    lemma_field_index(tfs, "seconds"@);
    lemma_field_index(tfs, "nanos"@);
    law_field_lookup(s, md, f.name@);
    assert(s.messages@[md as int].fields@[fi as int].name@ == f.name@);
    assert(crate::from_json::message_entries_spec(s, md, Seq::empty()) == Ok::<
        Seq<(nat, ValueV)>,
        ErrorV,
    >(Seq::empty()));
    if let (Some(si), Some(ni)) = (field_index_spec(tfs, "seconds"@), field_index_spec(tfs, "nanos"@)) {
        if tfs[si as int].oneof is None && tfs[ni as int].oneof is None {
            let (secs, nanos) = crate::external::rfc3339_parse_spec(t)->Some_0;
            reveal_strlit("seconds");
            reveal_strlit("nanos");
            assert(si != ni) by {
                if si == ni {
                    assert("seconds"@[0] != "nanos"@[0]);
                }
            }
            let first = seq![(si, ValueV::I64(secs))];
            assert(first.drop_last() =~= Seq::<(nat, ValueV)>::empty());
            assert(crate::from_json::drop_conflicts(Seq::<(nat, ValueV)>::empty(), tfs, ni) =~= Seq::<
                (nat, ValueV),
            >::empty());
            assert(crate::from_json::drop_conflicts(first, tfs, ni) =~= first);
            let tf = first.push((ni, ValueV::I32(nanos as i32)));
            let sub = MessageV { descriptor: tmd as nat, fields: tf };
            assert(tf[0] == (si, ValueV::I64(secs)));
            assert(tf[1] == (ni, ValueV::I32(nanos as i32)));
            assert(tf.drop_first()[0] == tf[1]);
            assert(crate::to_json::entry_index(tf.drop_first(), ni) == Some(0int));
            assert(crate::to_json::entry_index(tf, ni) == Some(1int));
            assert(crate::to_json::entry_index(tf, si) == Some(0int));
            let v = ValueV::Message(sub);
            assert(crate::from_json::field_value_spec(s, JsonV::Str(t), f) == Ok::<ValueV, ErrorV>(v));
            let e = seq![(f.name@, JsonV::Str(t))];
            assert(e.drop_last() =~= Seq::<(Seq<char>, JsonV)>::empty());
            assert(Seq::<(nat, ValueV)>::empty().push((fi, v)) =~= seq![(fi, v)]);
            assert(crate::from_json::message_entries_spec(s, md, e) == Ok::<
                Seq<(nat, ValueV)>,
                ErrorV,
            >(seq![(fi, v)]));
        }
    }
}

/// Output normalization writes a Timestamp field given as the neutral
/// `{"seconds": secs, "nanos": nanos}` object as the canonical RFC 3339
/// text of that instant, within the ProtoJSON range (where chrono has no
/// such instant, it is an error).
pub proof fn law_output_timestamp_object(s: Schema, md: nat, fi: nat, secs: i64, nanos: i32)
    requires
        s.wf(),
        md < s.messages@.len(),
        s.messages@[md as int].full_name@ != timestamp_full_name(),
        fi < s.messages@[md as int].fields@.len(),
        !s.messages@[md as int].fields@[fi as int].is_list,
        !s.messages@[md as int].fields@[fi as int].is_map,
        s.messages@[md as int].fields@[fi as int].kind matches Kind::Message(tmd)
            && s.messages@[tmd as int].full_name@ == timestamp_full_name(),
        timestamp_in_range(secs, nanos),
    ensures
        ({
            let name = s.messages@[md as int].fields@[fi as int].name@;
            let neutral = JsonV::Object(
                seq![
                    ("seconds"@, JsonV::Number(crate::to_json::json_int(secs as int))),
                    ("nanos"@, JsonV::Number(crate::to_json::json_int(nanos as int))),
                ],
            );
            let r = output_value_spec(s, JsonV::Object(seq![(name, neutral)]), md);
            &&& rfc3339_format_spec(secs, nanos as u32) matches Some(u) ==> r == Ok::<JsonV, ErrorV>(
                JsonV::Object(seq![(name, JsonV::Str(u))]),
            )
            &&& rfc3339_format_spec(secs, nanos as u32) is None ==> r is Err
        }),
{
    let fs = s.messages@[md as int].fields@;
    let name = fs[fi as int].name@;
    law_field_lookup(s, md, name);
    let ne = seq![
        ("seconds"@, JsonV::Number(crate::to_json::json_int(secs as int))),
        ("nanos"@, JsonV::Number(crate::to_json::json_int(nanos as int))),
    ];
    reveal_strlit("seconds");
    reveal_strlit("nanos");
    assert(ne.drop_last().drop_last() =~= Seq::<(Seq<char>, JsonV)>::empty());
    assert(ne.drop_last().last() == ne[0]);
    assert(crate::from_json::as_i64_spec(crate::to_json::json_int(secs as int)) == Some(secs));
    assert(crate::from_json::as_i64_spec(crate::to_json::json_int(nanos as int)) == Some(
        nanos as i64,
    ));
    assert(crate::well_known_types::neutral_parts(Seq::empty()) == Some((0i64, 0i32)));
    assert(crate::well_known_types::neutral_parts(ne.drop_last()) == Some((secs, 0i32)));
    assert("nanos"@ != "seconds"@) by {
        assert("nanos"@.len() != "seconds"@.len());
    }
    assert(crate::well_known_types::neutral_parts(ne) == Some((secs, nanos)));
    let neutral = JsonV::Object(ne);
    let e = seq![(name, neutral)];
    assert(e.drop_last() =~= Seq::<(Seq<char>, JsonV)>::empty());
    assert(e.last() == (name, neutral));
    let tmd = fs[fi as int].kind->Message_0;
    assert(s.messages@[md as int].fields@[fi as int].name@ == name);
    assert(field_index_spec(fs, name) == Some(fi));
    assert(crate::well_known_types::output_entries_spec(s, Seq::empty(), md) == Ok::<
        Seq<(Seq<char>, JsonV)>,
        ErrorV,
    >(Seq::empty()));
    let o = crate::well_known_types::output_timestamp_spec(neutral);
    assert(output_value_spec(s, neutral, tmd as nat) == o);
    assert(crate::well_known_types::output_field_spec(s, neutral, fs[fi as int]) == o);
    if let Ok(u) = o {
        assert(Seq::<(Seq<char>, JsonV)>::empty().push((name, u)) =~= seq![(name, u)]);
        assert(crate::well_known_types::output_entries_spec(s, e, md) == Ok::<
            Seq<(Seq<char>, JsonV)>,
            ErrorV,
        >(seq![(name, u)]));
    }
}

/// The text of a list is `[`, then the texts of its items joined by `, `,
/// then `]`: stated as what the empty list gives, what a list of one item
/// gives, and how adding an item at the end changes the text.
pub proof fn law_list_text(s: Schema, l: Seq<ValueV>, x: ValueV)
    ensures
        value_text_spec(s, ValueV::List(Seq::empty())) == Ok::<Seq<PieceV>, ErrorV>(
            seq![PieceV::Text("["@), PieceV::Text("]"@)],
        ),
        value_text_spec(s, x) matches Ok(tx) ==> value_text_spec(s, ValueV::List(seq![x])) == Ok::<
            Seq<PieceV>,
            ErrorV,
        >(seq![PieceV::Text("["@)] + tx + seq![PieceV::Text("]"@)]),
        (l.len() > 0 && value_text_spec(s, ValueV::List(l)) is Ok && value_text_spec(s, x) is Ok)
            ==> exists|p: Seq<PieceV>|
            #![trigger seq![PieceV::Text("["@)] + p]
            value_text_spec(s, ValueV::List(l)) == Ok::<Seq<PieceV>, ErrorV>(
                seq![PieceV::Text("["@)] + p + seq![PieceV::Text("]"@)],
            ) && value_text_spec(s, ValueV::List(l.push(x))) == Ok::<Seq<PieceV>, ErrorV>(
                seq![PieceV::Text("["@)] + p + seq![PieceV::Text(", "@)] + value_text_spec(s, x)->Ok_0
                    + seq![PieceV::Text("]"@)],
            ),
{
    assert(seq![PieceV::Text("["@)] + Seq::<PieceV>::empty() + seq![PieceV::Text("]"@)] =~= seq![
        PieceV::Text("["@),
        PieceV::Text("]"@),
    ]);
    assert(seq![x].drop_last() =~= Seq::<ValueV>::empty());
    if l.len() > 0 && value_text_spec(s, ValueV::List(l)) is Ok && value_text_spec(s, x) is Ok {
        let p = crate::extract::list_text_spec(s, l)->Ok_0;
        assert(l.push(x).drop_last() =~= l);
        assert(seq![PieceV::Text("["@)] + p + seq![PieceV::Text(", "@)] + value_text_spec(s, x)->Ok_0
            + seq![PieceV::Text("]"@)] =~= seq![PieceV::Text("["@)] + (p + seq![PieceV::Text(", "@)]
            + value_text_spec(s, x)->Ok_0) + seq![PieceV::Text("]"@)]);
    }
}

/// The text of a map is `{`, then `key: value` for each entry, joined by
/// `, `, then `}`: stated as what the empty map gives, what a map of one
/// entry gives, and how adding an entry at the end changes the text.
pub proof fn law_map_text(s: Schema, e: Seq<(crate::value::MapKeyV, ValueV)>, k: crate::value::MapKeyV, x: ValueV)
    ensures
        value_text_spec(s, ValueV::MapOf(Seq::empty())) == Ok::<Seq<PieceV>, ErrorV>(
            seq![PieceV::Text("{"@), PieceV::Text("}"@)],
        ),
        value_text_spec(s, x) matches Ok(tx) ==> value_text_spec(s, ValueV::MapOf(seq![(k, x)])) == Ok::<
            Seq<PieceV>,
            ErrorV,
        >(
            seq![PieceV::Text("{"@), PieceV::Text(crate::to_json::map_key_text(k) + ": "@)] + tx
                + seq![PieceV::Text("}"@)],
        ),
        (e.len() > 0 && value_text_spec(s, ValueV::MapOf(e)) is Ok && value_text_spec(s, x) is Ok)
            ==> exists|p: Seq<PieceV>|
            #![trigger seq![PieceV::Text("{"@)] + p]
            value_text_spec(s, ValueV::MapOf(e)) == Ok::<Seq<PieceV>, ErrorV>(
                seq![PieceV::Text("{"@)] + p + seq![PieceV::Text("}"@)],
            ) && value_text_spec(s, ValueV::MapOf(e.push((k, x)))) == Ok::<Seq<PieceV>, ErrorV>(
                seq![PieceV::Text("{"@)] + p + seq![
                    PieceV::Text(", "@),
                    PieceV::Text(crate::to_json::map_key_text(k) + ": "@),
                ] + value_text_spec(s, x)->Ok_0 + seq![PieceV::Text("}"@)],
            ),
{
    assert(seq![PieceV::Text("{"@)] + Seq::<PieceV>::empty() + seq![PieceV::Text("}"@)] =~= seq![
        PieceV::Text("{"@),
        PieceV::Text("}"@),
    ]);
    assert(seq![(k, x)].drop_last() =~= Seq::<(crate::value::MapKeyV, ValueV)>::empty());
    if let Ok(tx) = value_text_spec(s, x) {
        let item = seq![PieceV::Text(crate::to_json::map_key_text(k) + ": "@)] + tx;
        assert(seq![PieceV::Text("{"@)] + item + seq![PieceV::Text("}"@)] =~= seq![
            PieceV::Text("{"@),
            PieceV::Text(crate::to_json::map_key_text(k) + ": "@),
        ] + tx + seq![PieceV::Text("}"@)]);
        if e.len() > 0 && value_text_spec(s, ValueV::MapOf(e)) is Ok {
            let p = crate::extract::entries_text_spec(s, e)->Ok_0;
            assert(e.push((k, x)).drop_last() =~= e);
            assert(seq![PieceV::Text("{"@)] + (p + seq![PieceV::Text(", "@)] + item) + seq![
                PieceV::Text("}"@),
            ] =~= seq![PieceV::Text("{"@)] + p + seq![
                PieceV::Text(", "@),
                PieceV::Text(crate::to_json::map_key_text(k) + ": "@),
            ] + tx + seq![PieceV::Text("}"@)]);
        }
    }
}

/// A path made of a plain field name, an index in brackets and then `.`
/// and more path reads as that field, that index, and then all that the
/// rest reads as: `orders[2].id` reaches `id` in item 2 of `orders`.
pub proof fn law_index_then_path(name: Seq<char>, i: nat, rest: Seq<char>)
    requires
        plain_name(name),
        i <= usize::MAX,
        parse_path_spec(rest) is Ok,
    ensures
        parse_path_spec(name + seq!['['] + int_text(i as int) + seq![']', '.'] + rest) == Ok::<
            Seq<PathPartV>,
            Seq<char>,
        >(seq![PathPartV::Field(name), PathPartV::Index(i)] + parse_path_spec(rest)->Ok_0),
{
    let d = int_text(i as int);
    crate::numeric::lemma_decimal_digits(i);
    assert(d == crate::numeric::decimal(i));
    crate::numeric::lemma_parse_int_text(i as int, 0, usize::MAX as int);
    let pre = name + seq!['['] + d + seq![']', '.'];
    let s = pre + rest;
    let n = name.len() as int;
    assert forall|p: int| 0 <= p < n implies #[trigger] s[p] != '.' && s[p] != '[' by {
        assert(s[p] == name[p]);
    }
    crate::path_laws::lemma_path_run(s, 0, n, Seq::empty(), Seq::empty());
    assert(Seq::<char>::empty() + s.subrange(0, n) =~= name);
    assert(s[n] == '[');
    let jq = n + 1 + d.len();
    assert(s[jq] == ']');
    assert(s[jq + 1] == '.');
    assert(d.len() > 0);
    assert(s[n + 1] == d[0]);
    assert(crate::numeric::is_digit(d[0]));
    lemma_find_from(s, n + 1, ']');
    let j = find_from(s, n + 1, ']');
    assert forall|p: int| n + 1 <= p < jq implies #[trigger] s[p] != ']' by {
        assert(s[p] == d[p - n - 1]);
        assert(crate::numeric::is_digit(d[p - n - 1]));
    }
    assert(j == jq);
    assert(s.subrange(n + 1, j) =~= d);
    assert(crate::path::bracket_part(d) == PathPartV::Index(i));
    let parts = seq![PathPartV::Field(name), PathPartV::Index(i)];
    assert(Seq::<PathPartV>::empty().push(PathPartV::Field(name)).push(PathPartV::Index(i)) =~= parts);
    assert(parse_path_from(s, n, name, Seq::empty()) == parse_path_from(s, jq + 1, Seq::empty(), parts));
    assert(parse_path_from(s, jq + 1, Seq::empty(), parts) == parse_path_from(
        s,
        jq + 2,
        Seq::empty(),
        parts,
    ));
    assert(pre.len() == jq + 2);
    crate::path_laws::lemma_path_shift(pre, rest, 0, Seq::empty(), parts);
    crate::path_laws::lemma_parts_prefix(rest, 0, Seq::empty(), Seq::empty(), parts);
    assert(parts + Seq::<PathPartV>::empty() =~= parts);
}

/// A plain field name followed by a map key in quotes reads as that field
/// and that key.
pub proof fn law_quoted_key_last(name: Seq<char>, q: char, k: Seq<char>)
    requires
        plain_name(name),
        q == '\'' || q == '"',
        forall|i: int| 0 <= i < k.len() ==> #[trigger] k[i] != q,
    ensures
        parse_path_spec(name + seq!['[', q] + k + seq![q, ']']) == Ok::<Seq<PathPartV>, Seq<char>>(
            seq![PathPartV::Field(name), PathPartV::MapKey(k)],
        ),
{
    let s = name + seq!['[', q] + k + seq![q, ']'];
    let n = name.len() as int;
    assert forall|p: int| 0 <= p < n implies #[trigger] s[p] != '.' && s[p] != '[' by {
        assert(s[p] == name[p]);
    }
    crate::path_laws::lemma_path_run(s, 0, n, Seq::empty(), Seq::empty());
    assert(Seq::<char>::empty() + s.subrange(0, n) =~= name);
    assert(s[n] == '[');
    assert(s[n + 1] == q);
    let jq = n + 2 + k.len();
    assert(s[jq] == q);
    assert(s[jq + 1] == ']');
    lemma_find_from(s, n + 2, q);
    let j = find_from(s, n + 2, q);
    assert forall|p: int| n + 2 <= p < jq implies #[trigger] s[p] != q by {
        assert(s[p] == k[p - n - 2]);
    }
    assert(j == jq);
    assert(s.subrange(n + 2, j) =~= k);
    let parts = seq![PathPartV::Field(name), PathPartV::MapKey(k)];
    assert(Seq::<PathPartV>::empty().push(PathPartV::Field(name)).push(PathPartV::MapKey(k)) =~= parts);
    assert(s.len() == jq + 2);
    assert(parse_path_from(s, n, name, Seq::empty()) == parse_path_from(s, jq + 2, Seq::empty(), parts));
    assert(parse_path_from(s, jq + 2, Seq::empty(), parts) == Ok::<Seq<PathPartV>, Seq<char>>(parts));
}

} // verus!
