//! What the library promises of field paths: how a path reads (dotted
//! pieces, joined paths, the shape of its parts), and what extracting by a
//! path gives (a field by its name, an item by its index, a map entry by its
//! key as JSON writes it, enum names, a sub-message's fields, and the errors
//! for paths of the wrong shape).

use vstd::prelude::*;

use crate::error::ErrorV;
use crate::extract::{
    apply_part_spec, extract_field_value_spec, lemma_resolve_entries, map_index, navigate_spec,
    parse_map_key_spec,
    resolve_entries_spec, resolve_enum_spec, value_text_spec, PieceV,
};
use crate::laws::{key_fits, lemma_field_index_of};
use crate::numeric::{
    decimal, int_text, is_digit, lemma_decimal_digits, lemma_parse_bool_text, lemma_parse_int_text,
};
use crate::path::{find_from, lemma_find_from, parse_path_from, parse_path_spec, PathPartV};
use crate::schema::{Kind, Schema};
use crate::to_json::{enum_name_spec, get_field_spec, map_key_text};
use crate::value::{MapKeyV, MessageV, ValueV};

verus! {

/// A field name as a path writes it: not empty, and without `.` or `[`.
pub open spec fn plain_name(n: Seq<char>) -> bool {
    n.len() > 0 && forall|i: int| 0 <= i < n.len() ==> #[trigger] n[i] != '.' && n[i] != '['
}

/// The names joined by dots.
pub open spec fn dotted(names: Seq<Seq<char>>) -> Seq<char>
    decreases names.len(),
{
    if names.len() <= 1 {
        if names.len() == 1 {
            names[0]
        } else {
            Seq::empty()
        }
    } else {
        names[0] + seq!['.'] + dotted(names.drop_first())
    }
}

pub open spec fn field_parts(names: Seq<Seq<char>>) -> Seq<PathPartV> {
    names.map_values(|n: Seq<char>| PathPartV::Field(n))
}

/// Characters that are neither `.` nor `[` are gathered into the pending
/// field name.
pub(crate) proof fn lemma_path_run(s: Seq<char>, i: int, k: int, cur: Seq<char>, parts: Seq<PathPartV>)
    requires
        0 <= i <= k <= s.len(),
        forall|p: int| i <= p < k ==> #[trigger] s[p] != '.' && s[p] != '[',
    ensures
        parse_path_from(s, i, cur, parts) == parse_path_from(s, k, cur + s.subrange(i, k), parts),
    decreases k - i,
{
    if i < k {
        assert(s[i] != '.' && s[i] != '[');
        lemma_path_run(s, i + 1, k, cur.push(s[i]), parts);
        assert(cur.push(s[i]) + s.subrange(i + 1, k) =~= cur + s.subrange(i, k));
    } else {
        assert(cur + s.subrange(i, k) =~= cur);
    }
}

proof fn lemma_find_shift(a: Seq<char>, b: Seq<char>, i: int, c: char)
    requires
        0 <= i,
    ensures
        find_from(a + b, a.len() + i, c) == a.len() + find_from(b, i, c),
    decreases b.len() - i,
{
    if i < b.len() {
        assert((a + b)[a.len() + i] == b[i]);
        if b[i] != c {
            lemma_find_shift(a, b, i + 1, c);
        }
    }
}

/// Reading a path from a position inside it depends only on what follows.
pub(crate) proof fn lemma_path_shift(a: Seq<char>, b: Seq<char>, i: int, cur: Seq<char>, parts: Seq<PathPartV>)
    requires
        0 <= i,
    ensures
        parse_path_from(a + b, a.len() + i, cur, parts) == parse_path_from(b, i, cur, parts),
    decreases b.len() + 1 - i,
{
    let s = a + b;
    let p = a.len() + i;
    if i < b.len() {
        assert(s[p] == b[i]);
        if b[i] == '.' {
            lemma_path_shift(a, b, i + 1, Seq::empty(), crate::path::flush(cur, parts));
        } else if b[i] == '[' {
            let fp = crate::path::flush(cur, parts);
            if i + 1 < b.len() && (b[i + 1] == '\'' || b[i + 1] == '"') {
                assert(s[p + 1] == b[i + 1]);
                let q = b[i + 1];
                lemma_find_shift(a, b, i + 2, q);
                lemma_find_from(b, i + 2, q);
                let jb = find_from(b, i + 2, q);
                let js = find_from(s, p + 2, q);
                assert(js == a.len() + jb);
                if jb + 1 < b.len() {
                    assert(s[js + 1] == b[jb + 1]);
                }
                assert(s.subrange(p + 2, js) =~= b.subrange(i + 2, jb));
                if jb + 1 < b.len() && b[jb + 1] == ']' {
                    lemma_path_shift(
                        a,
                        b,
                        jb + 2,
                        Seq::empty(),
                        fp.push(PathPartV::MapKey(b.subrange(i + 2, jb))),
                    );
                }
            } else {
                if i + 1 < b.len() {
                    assert(s[p + 1] == b[i + 1]);
                }
                lemma_find_shift(a, b, i + 1, ']');
                lemma_find_from(b, i + 1, ']');
                let jb = find_from(b, i + 1, ']');
                let js = find_from(s, p + 1, ']');
                assert(s.subrange(p + 1, js) =~= b.subrange(i + 1, jb));
                lemma_path_shift(
                    a,
                    b,
                    jb + 1,
                    Seq::empty(),
                    fp.push(crate::path::bracket_part(b.subrange(i + 1, jb))),
                );
            }
        } else {
            lemma_path_shift(a, b, i + 1, cur.push(b[i]), parts);
        }
    }
}

proof fn lemma_dotted(names: Seq<Seq<char>>, parts: Seq<PathPartV>)
    requires
        names.len() >= 1,
        forall|i: int| 0 <= i < names.len() ==> plain_name(#[trigger] names[i]),
    ensures
        parse_path_from(dotted(names), 0, Seq::empty(), parts) == Ok::<
            Seq<PathPartV>,
            Seq<char>,
        >(parts + field_parts(names)),
    decreases names.len(),
{
    let n0 = names[0];
    assert(plain_name(n0));
    let s = dotted(names);
    if names.len() == 1 {
        lemma_path_run(s, 0, n0.len() as int, Seq::empty(), parts);
        assert(Seq::<char>::empty() + s.subrange(0, n0.len() as int) =~= n0);
        assert(parts.push(PathPartV::Field(n0)) =~= parts + field_parts(names));
    } else {
        let rest = names.drop_first();
        let r = dotted(rest);
        assert(s == n0 + seq!['.'] + r);
        assert forall|p: int| 0 <= p < n0.len() implies #[trigger] s[p] != '.' && s[p] != '[' by {
            assert(s[p] == n0[p]);
        }
        lemma_path_run(s, 0, n0.len() as int, Seq::empty(), parts);
        assert(Seq::<char>::empty() + s.subrange(0, n0.len() as int) =~= n0);
        assert(s[n0.len() as int] == '.');
        let a = n0 + seq!['.'];
        assert(s =~= a + r);
        lemma_path_shift(a, r, 0, Seq::empty(), parts.push(PathPartV::Field(n0)));
        assert forall|i: int| 0 <= i < rest.len() implies plain_name(#[trigger] rest[i]) by {
            assert(rest[i] == names[i + 1]);
        }
        lemma_dotted(rest, parts.push(PathPartV::Field(n0)));
        assert(parts.push(PathPartV::Field(n0)) + field_parts(rest) =~= parts + field_parts(names));
    }
}

/// Field names joined by dots read as those fields, one after the other:
/// `user.address.street` reaches `street` in `address` in `user`.
pub proof fn law_dotted_path(names: Seq<Seq<char>>)
    requires
        names.len() >= 1,
        forall|i: int| 0 <= i < names.len() ==> plain_name(#[trigger] names[i]),
    ensures
        parse_path_spec(dotted(names)) == Ok::<Seq<PathPartV>, Seq<char>>(field_parts(names)),
{
    lemma_dotted(names, Seq::empty());
    assert(Seq::<PathPartV>::empty() + field_parts(names) =~= field_parts(names));
}

} // verus!

verus! {

/// A map key's text, as JSON writes it, reads back as the key in a path.
proof fn lemma_path_key_round_trip(key: MapKeyV, kind: Kind, path: Seq<char>)
    requires
        key_fits(key, kind),
    ensures
        parse_map_key_spec(map_key_text(key), Some(kind), path) == Ok::<MapKeyV, ErrorV>(key),
{
    match key {
        MapKeyV::Bool(b) => lemma_parse_bool_text(b),
        MapKeyV::I32(v) => lemma_parse_int_text(v as int, i32::MIN as int, i32::MAX as int),
        MapKeyV::I64(v) => lemma_parse_int_text(v as int, i64::MIN as int, i64::MAX as int),
        MapKeyV::U32(v) => lemma_parse_int_text(v as int, 0, u32::MAX as int),
        MapKeyV::U64(v) => lemma_parse_int_text(v as int, 0, u64::MAX as int),
        MapKeyV::Str(_) => {},
    }
}

/// Looking a key up depends only on the keys.
proof fn lemma_map_index_keys(e: Seq<(MapKeyV, ValueV)>, f: Seq<(MapKeyV, ValueV)>, k: MapKeyV)
    requires
        e.len() == f.len(),
        forall|i: int| 0 <= i < e.len() ==> #[trigger] e[i].0 == f[i].0,
    ensures
        map_index(e, k) == map_index(f, k),
    decreases e.len(),
{
    if e.len() > 0 {
        assert(e[0].0 == f[0].0);
        assert forall|i: int| 0 <= i < e.drop_first().len() implies #[trigger] e.drop_first()[i].0
            == f.drop_first()[i].0 by {
            assert(e[i + 1].0 == f[i + 1].0);
        }
        lemma_map_index_keys(e.drop_first(), f.drop_first(), k);
    }
}

/// The path to a map entry: the map field's name, then the key in double
/// quotes and brackets.
pub open spec fn quoted_key_path(name: Seq<char>, key_text: Seq<char>) -> Seq<char> {
    name + seq!['[', '"'] + key_text + seq!['"', ']']
}

/// `proto_get` reaches a map entry by the map field's name and the entry's
/// key written as `proto_to_json` writes it, read as the map's declared key
/// type: the text it gives is that of the entry's value. The key is the
/// first with its value in the map's entries, and its text holds no `"`.
pub proof fn law_map_key_path(s: Schema, m: MessageV, fi: nat, e: Seq<(MapKeyV, ValueV)>, j: int)
    requires
        s.wf(),
        m.descriptor < s.messages@.len(),
        fi < s.messages@[m.descriptor as int].fields@.len(),
        s.messages@[m.descriptor as int].fields@[fi as int].is_map,
        plain_name(s.messages@[m.descriptor as int].fields@[fi as int].name@),
        get_field_spec(s, m, fi) == ValueV::MapOf(e),
        0 <= j < e.len(),
        map_index(e, e[j].0) == Some(j),
        key_fits(
            e[j].0,
            s.messages@[s.messages@[m.descriptor as int].fields@[fi as int].kind->Message_0 as int].fields@[0].kind,
        ),
        forall|p: int| 0 <= p < map_key_text(e[j].0).len() ==> #[trigger] map_key_text(e[j].0)[p] != '"',
    ensures
        extract_field_value_spec(
            s,
            m,
            quoted_key_path(
                s.messages@[m.descriptor as int].fields@[fi as int].name@,
                map_key_text(e[j].0),
            ),
        ) == value_text_spec(
            s,
            resolve_enum_spec(s, e[j].1, s.messages@[m.descriptor as int].fields@[fi as int].kind),
        ),
{
    let fs = s.messages@[m.descriptor as int].fields@;
    let f = fs[fi as int];
    let name = f.name@;
    let key = e[j].0;
    let kt = map_key_text(key);
    let path = quoted_key_path(name, kt);
    assert(s.message_wf(s.messages@[m.descriptor as int]));
    assert(s.field_wf(f));
    let entry = f.kind->Message_0;
    assert(s.message_wf(s.messages@[entry as int]));
    let kk = s.messages@[entry as int].fields@[0].kind;
    // The path reads as the field, then the quoted key.
    let n = name.len() as int;
    assert forall|p: int| 0 <= p < n implies #[trigger] path[p] != '.' && path[p] != '[' by {
        assert(path[p] == name[p]);
    }
    lemma_path_run(path, 0, n, Seq::empty(), Seq::empty());
    assert(Seq::<char>::empty() + path.subrange(0, n) =~= name);
    assert(path[n] == '[');
    assert(path[n + 1] == '"');
    lemma_find_from(path, n + 2, '"');
    let q = find_from(path, n + 2, '"');
    let close = n + 2 + kt.len();
    assert(path[close] == '"');
    assert forall|p: int| n + 2 <= p < close implies path[p] != '"' by {
        assert(path[p] == kt[p - n - 2]);
    }
    assert(q == close);
    assert(path[close + 1] == ']');
    assert(path.subrange(n + 2, close) =~= kt);
    let parts = seq![PathPartV::Field(name), PathPartV::MapKey(kt)];
    let first = crate::path::flush(name, Seq::empty());
    assert(first =~= seq![PathPartV::Field(name)]);
    assert(first.push(PathPartV::MapKey(kt)) =~= parts);
    assert(path.len() == close + 2);
    assert(parse_path_from(path, close + 2, Seq::empty(), parts) == Ok::<
        Seq<PathPartV>,
        Seq<char>,
    >(parts));
    assert(parse_path_from(path, n, name, Seq::empty()) == Ok::<Seq<PathPartV>, Seq<char>>(
        parts,
    ));
    assert(parse_path_spec(path) == Ok::<Seq<PathPartV>, Seq<char>>(parts));
    // The field is found by its name, and the key by its text.
    assert forall|a: int, b: int| 0 <= a < b < fs.len() implies #[trigger] fs[a].name@
        != #[trigger] fs[b].name@ by {
        assert(s.messages@[m.descriptor as int].fields@[a] == fs[a]);
        assert(s.messages@[m.descriptor as int].fields@[b] == fs[b]);
    }
    lemma_field_index_of(fs, fi as int);
    lemma_path_key_round_trip(key, kk, path);
    let re = resolve_entries_spec(s, e, f.kind);
    lemma_resolve_entries(s, e, f.kind);
    lemma_map_index_keys(e, re, key);
    assert(resolve_enum_spec(s, ValueV::MapOf(e), f.kind) == ValueV::MapOf(re));
    // Two steps: the field, then the entry.
    let start = ValueV::Message(m);
    assert(crate::extract::map_key_kind_spec(s, m.descriptor, fi) == Some(kk));
    assert(crate::extract::apply_part_spec(s, start, None, PathPartV::Field(name), path) == Ok::<
        (ValueV, Option<Kind>),
        ErrorV,
    >((ValueV::MapOf(re), Some(kk))));
    assert(crate::extract::apply_part_spec(
        s,
        ValueV::MapOf(re),
        Some(kk),
        PathPartV::MapKey(kt),
        path,
    ) == Ok::<(ValueV, Option<Kind>), ErrorV>((re[j].1, None)));
    assert(parts[0] == PathPartV::Field(name));
    assert(parts[1] == PathPartV::MapKey(kt));
    assert(crate::extract::navigate_spec(s, start, parts, 0, path) == Ok::<
        (ValueV, Option<Kind>),
        ErrorV,
    >((start, None)));
    assert(crate::extract::navigate_spec(s, start, parts, 1, path) == Ok::<
        (ValueV, Option<Kind>),
        ErrorV,
    >((ValueV::MapOf(re), Some(kk))));
    assert(crate::extract::navigate_spec(s, start, parts, 2, path) == Ok::<
        (ValueV, Option<Kind>),
        ErrorV,
    >((re[j].1, None)));
}

/// `proto_get` with the name of a field gives the text of that field's
/// value, its enum numbers read as names; an unset field gives the text of
/// its default.
pub proof fn law_field_name_path(s: Schema, m: MessageV, fi: nat)
    requires
        s.wf(),
        m.descriptor < s.messages@.len(),
        fi < s.messages@[m.descriptor as int].fields@.len(),
        plain_name(s.messages@[m.descriptor as int].fields@[fi as int].name@),
    ensures
        extract_field_value_spec(s, m, s.messages@[m.descriptor as int].fields@[fi as int].name@)
            == value_text_spec(
            s,
            resolve_enum_spec(
                s,
                get_field_spec(s, m, fi),
                s.messages@[m.descriptor as int].fields@[fi as int].kind,
            ),
        ),
{
    let fs = s.messages@[m.descriptor as int].fields@;
    let name = fs[fi as int].name@;
    assert(seq![name].len() == 1 && seq![name][0] == name);
    lemma_dotted(seq![name], Seq::empty());
    assert(dotted(seq![name]) == name);
    let parts = field_parts(seq![name]);
    assert(Seq::<PathPartV>::empty() + parts =~= seq![PathPartV::Field(name)]);
    assert forall|a: int, b: int| 0 <= a < b < fs.len() implies #[trigger] fs[a].name@
        != #[trigger] fs[b].name@ by {
        assert(s.messages@[m.descriptor as int].fields@[a] == fs[a]);
        assert(s.messages@[m.descriptor as int].fields@[b] == fs[b]);
    }
    lemma_field_index_of(fs, fi as int);
    let start = ValueV::Message(m);
    assert(crate::extract::navigate_spec(s, start, parts, 0, name) == Ok::<
        (ValueV, Option<Kind>),
        ErrorV,
    >((start, None)));
    assert(parts[0] == PathPartV::Field(name));
}

/// An enum field read by its name gives the name of its number where the
/// enum declares one, and the number otherwise.
pub proof fn law_enum_field_path(s: Schema, m: MessageV, fi: nat)
    requires
        s.wf(),
        m.descriptor < s.messages@.len(),
        fi < s.messages@[m.descriptor as int].fields@.len(),
        plain_name(s.messages@[m.descriptor as int].fields@[fi as int].name@),
        s.messages@[m.descriptor as int].fields@[fi as int].kind is Enum,
        get_field_spec(s, m, fi) is EnumNumber,
    ensures
        ({
            let f = s.messages@[m.descriptor as int].fields@[fi as int];
            let n = get_field_spec(s, m, fi)->EnumNumber_0;
            extract_field_value_spec(s, m, f.name@) == Ok::<Seq<PieceV>, ErrorV>(
                match enum_name_spec(s.enums@[f.kind->Enum_0 as int].values@, n) {
                    Some(name) => seq![PieceV::Text(name)],
                    None => seq![PieceV::Text(int_text(n as int))],
                },
            )
        }),
{
    law_field_name_path(s, m, fi);
}

/// The path of one item of a list field: its name and the index in
/// brackets.
pub open spec fn index_path(name: Seq<char>, i: nat) -> Seq<char> {
    name + seq!['['] + int_text(i as int) + seq![']']
}

proof fn lemma_index_path(name: Seq<char>, i: nat)
    requires
        plain_name(name),
        i <= usize::MAX,
    ensures
        parse_path_spec(index_path(name, i)) == Ok::<Seq<PathPartV>, Seq<char>>(
            seq![PathPartV::Field(name), PathPartV::Index(i)],
        ),
{
    let path = index_path(name, i);
    let n = name.len() as int;
    let it = int_text(i as int);
    lemma_decimal_digits(i);
    assert(it == decimal(i));
    assert forall|p: int| 0 <= p < n implies #[trigger] path[p] != '.' && path[p] != '[' by {
        assert(path[p] == name[p]);
    }
    lemma_path_run(path, 0, n, Seq::empty(), Seq::empty());
    assert(Seq::<char>::empty() + path.subrange(0, n) =~= name);
    assert(path[n] == '[');
    assert(path[n + 1] == it[0]);
    assert(is_digit(it[0]));
    let close = n + 1 + it.len();
    lemma_find_from(path, n + 1, ']');
    assert(path[close] == ']');
    assert forall|p: int| n + 1 <= p < close implies path[p] != ']' by {
        assert(path[p] == it[p - n - 1]);
        assert(is_digit(it[p - n - 1]));
    }
    assert(find_from(path, n + 1, ']') == close);
    assert(path.subrange(n + 1, close) =~= it);
    lemma_parse_int_text(i as int, 0, usize::MAX as int);
    assert(crate::path::bracket_part(it) == PathPartV::Index(i));
    let parts = seq![PathPartV::Field(name), PathPartV::Index(i)];
    let first = crate::path::flush(name, Seq::empty());
    assert(first.push(PathPartV::Index(i)) =~= parts);
    assert(path.len() == close + 1);
    assert(parse_path_from(path, close + 1, Seq::empty(), parts) == Ok::<
        Seq<PathPartV>,
        Seq<char>,
    >(parts));
    assert(parse_path_from(path, n, name, Seq::empty()) == Ok::<Seq<PathPartV>, Seq<char>>(
        parts,
    ));
}

/// The first step of a path from a message: the field of that name, its
/// enum numbers read as names.
proof fn lemma_first_step(s: Schema, m: MessageV, fi: nat, path: Seq<char>)
    requires
        s.wf(),
        m.descriptor < s.messages@.len(),
        fi < s.messages@[m.descriptor as int].fields@.len(),
    ensures
        ({
            let f = s.messages@[m.descriptor as int].fields@[fi as int];
            crate::extract::apply_part_spec(s, ValueV::Message(m), None, PathPartV::Field(f.name@), path)
                == Ok::<(ValueV, Option<Kind>), ErrorV>(
                (
                    resolve_enum_spec(s, get_field_spec(s, m, fi), f.kind),
                    crate::extract::map_key_kind_spec(s, m.descriptor, fi),
                ),
            )
        }),
{
    let fs = s.messages@[m.descriptor as int].fields@;
    assert forall|a: int, b: int| 0 <= a < b < fs.len() implies #[trigger] fs[a].name@
        != #[trigger] fs[b].name@ by {
        assert(s.messages@[m.descriptor as int].fields@[a] == fs[a]);
        assert(s.messages@[m.descriptor as int].fields@[b] == fs[b]);
    }
    lemma_field_index_of(fs, fi as int);
}

/// An index into a list field: within the list it gives the text of that
/// item (enum numbers read as names); past its end, the out-of-bounds
/// error with the index, the path and the length.
pub proof fn law_index_path(s: Schema, m: MessageV, fi: nat, i: nat)
    requires
        s.wf(),
        m.descriptor < s.messages@.len(),
        fi < s.messages@[m.descriptor as int].fields@.len(),
        plain_name(s.messages@[m.descriptor as int].fields@[fi as int].name@),
        get_field_spec(s, m, fi) is List,
        i <= usize::MAX,
    ensures
        ({
            let f = s.messages@[m.descriptor as int].fields@[fi as int];
            let l = get_field_spec(s, m, fi)->List_0;
            let path = index_path(f.name@, i);
            extract_field_value_spec(s, m, path) == if i < l.len() {
                value_text_spec(s, resolve_enum_spec(s, l[i as int], f.kind))
            } else {
                Err(ErrorV::IndexOutOfBounds(i, path, l.len()))
            }
        }),
{
    let f = s.messages@[m.descriptor as int].fields@[fi as int];
    let l = get_field_spec(s, m, fi)->List_0;
    let path = index_path(f.name@, i);
    lemma_index_path(f.name@, i);
    lemma_first_step(s, m, fi, path);
    crate::extract::lemma_resolve_seq(s, l, f.kind);
    let rl = crate::extract::resolve_seq_spec(s, l, f.kind);
    let parts = seq![PathPartV::Field(f.name@), PathPartV::Index(i)];
    let start = ValueV::Message(m);
    assert(parts[0] == PathPartV::Field(f.name@));
    assert(parts[1] == PathPartV::Index(i));
    assert(crate::extract::navigate_spec(s, start, parts, 0, path) == Ok::<
        (ValueV, Option<Kind>),
        ErrorV,
    >((start, None)));
    let kk = crate::extract::map_key_kind_spec(s, m.descriptor, fi);
    assert(crate::extract::navigate_spec(s, start, parts, 1, path) == Ok::<
        (ValueV, Option<Kind>),
        ErrorV,
    >((ValueV::List(rl), kk)));
}

/// A name in a path asks for a field, an index for an item or a map entry:
/// an index after a value that is no list or map gives the not-repeated
/// error with the path, and a name after a value that is no message gives a
/// path error.
pub proof fn law_wrong_shape_paths(s: Schema, m: MessageV, fi: nat, g: Seq<char>)
    requires
        s.wf(),
        m.descriptor < s.messages@.len(),
        fi < s.messages@[m.descriptor as int].fields@.len(),
        plain_name(s.messages@[m.descriptor as int].fields@[fi as int].name@),
        plain_name(g),
    ensures
        ({
            let f = s.messages@[m.descriptor as int].fields@[fi as int];
            let v = resolve_enum_spec(s, get_field_spec(s, m, fi), f.kind);
            let ip = index_path(f.name@, 0);
            let fp = dotted(seq![f.name@, g]);
            &&& !(v is List || v is MapOf) ==> extract_field_value_spec(s, m, ip) == Err::<
                Seq<PieceV>,
                ErrorV,
            >(ErrorV::NotARepeatedField(ip))
            &&& !(v is Message) ==> extract_field_value_spec(s, m, fp) is Err
            &&& !(v is Message) ==> (extract_field_value_spec(s, m, fp)->Err_0 is InvalidFieldPath)
        }),
{
    let f = s.messages@[m.descriptor as int].fields@[fi as int];
    let start = ValueV::Message(m);
    let kk = crate::extract::map_key_kind_spec(s, m.descriptor, fi);
    let v = resolve_enum_spec(s, get_field_spec(s, m, fi), f.kind);
    let ip = index_path(f.name@, 0);
    lemma_index_path(f.name@, 0);
    lemma_first_step(s, m, fi, ip);
    let iparts = seq![PathPartV::Field(f.name@), PathPartV::Index(0)];
    assert(iparts[0] == PathPartV::Field(f.name@));
    assert(iparts[1] == PathPartV::Index(0));
    assert(crate::extract::navigate_spec(s, start, iparts, 0, ip) == Ok::<
        (ValueV, Option<Kind>),
        ErrorV,
    >((start, None)));
    assert(crate::extract::navigate_spec(s, start, iparts, 1, ip) == Ok::<
        (ValueV, Option<Kind>),
        ErrorV,
    >((v, kk)));
    let names = seq![f.name@, g];
    let fp = dotted(names);
    assert forall|i: int| 0 <= i < names.len() implies plain_name(#[trigger] names[i]) by {
        if i == 1 {
            assert(names[1] == g);
        }
    }
    law_dotted_path(names);
    lemma_first_step(s, m, fi, fp);
    let fparts = field_parts(names);
    assert(fparts[0] == PathPartV::Field(f.name@));
    assert(fparts[1] == PathPartV::Field(g));
    assert(fparts.len() == 2);
    assert(crate::extract::navigate_spec(s, start, fparts, 0, fp) == Ok::<
        (ValueV, Option<Kind>),
        ErrorV,
    >((start, None)));
    assert(crate::extract::navigate_spec(s, start, fparts, 1, fp) == Ok::<
        (ValueV, Option<Kind>),
        ErrorV,
    >((v, kk)));
}

} // verus!

verus! {

/// Every field part names a plain field.
pub open spec fn fields_plain(parts: Seq<PathPartV>) -> bool {
    forall|i: int| 0 <= i < parts.len() && (#[trigger] parts[i]) is Field ==> plain_name(parts[i]->Field_0)
}

pub open spec fn no_dot_or_bracket(cur: Seq<char>) -> bool {
    forall|i: int| 0 <= i < cur.len() ==> #[trigger] cur[i] != '.' && cur[i] != '['
}

proof fn lemma_flush_plain(cur: Seq<char>, parts: Seq<PathPartV>)
    requires
        no_dot_or_bracket(cur),
        fields_plain(parts),
    ensures
        fields_plain(crate::path::flush(cur, parts)),
{
    let r = crate::path::flush(cur, parts);
    assert forall|i: int| 0 <= i < r.len() && (#[trigger] r[i]) is Field implies plain_name(r[i]->Field_0) by {
        if i < parts.len() {
            assert(r[i] == parts[i]);
        }
    }
}

proof fn lemma_path_shape(s: Seq<char>, i: int, cur: Seq<char>, parts: Seq<PathPartV>)
    requires
        no_dot_or_bracket(cur),
        fields_plain(parts),
    ensures
        parse_path_from(s, i, cur, parts) matches Ok(r) ==> r.len() >= 1 && fields_plain(r),
    decreases s.len() + 1 - i,
{
    lemma_flush_plain(cur, parts);
    let fp = crate::path::flush(cur, parts);
    if i < 0 || i >= s.len() {
    } else if s[i] == '.' {
        lemma_path_shape(s, i + 1, Seq::empty(), fp);
    } else if s[i] == '[' {
        if i + 1 < s.len() && (s[i + 1] == '\'' || s[i + 1] == '"') {
            let j = find_from(s, i + 2, s[i + 1]);
            lemma_find_from(s, i + 2, s[i + 1]);
            if j + 1 < s.len() && s[j + 1] == ']' {
                let np = fp.push(PathPartV::MapKey(s.subrange(i + 2, j)));
                assert forall|a: int| 0 <= a < np.len() && (#[trigger] np[a]) is Field implies plain_name(np[a]->Field_0) by {
                    assert(np[a] == fp[a]);
                }
                lemma_path_shape(s, j + 2, Seq::empty(), np);
            }
        } else {
            let j = find_from(s, i + 1, ']');
            lemma_find_from(s, i + 1, ']');
            let np = fp.push(crate::path::bracket_part(s.subrange(i + 1, j)));
            assert forall|a: int| 0 <= a < np.len() && (#[trigger] np[a]) is Field implies plain_name(np[a]->Field_0) by {
                if a < fp.len() {
                    assert(np[a] == fp[a]);
                }
            }
            lemma_path_shape(s, j + 1, Seq::empty(), np);
        }
    } else {
        let nc = cur.push(s[i]);
        assert forall|a: int| 0 <= a < nc.len() implies #[trigger] nc[a] != '.' && nc[a] != '[' by {
            if a < cur.len() {
                assert(nc[a] == cur[a]);
            }
        }
        lemma_path_shape(s, i + 1, nc, parts);
    }
}

/// A path reads as at least one part, every field part naming a field that
/// is not empty and holds no `.` or `[`. (A path that does not read gives a
/// syntax error: `parse_field_path` turns every `Err` of the reading into an
/// invalid-path error.)
pub proof fn law_path_shape(path: Seq<char>)
    ensures
        parse_path_spec(path) matches Ok(parts) ==> parts.len() >= 1 && fields_plain(parts),
{
    lemma_path_shape(path, 0, Seq::empty(), Seq::empty());
}

/// Parts read before a position stand before all that is read after it.
pub(crate) proof fn lemma_parts_prefix(
    s: Seq<char>,
    i: int,
    cur: Seq<char>,
    parts: Seq<PathPartV>,
    pre: Seq<PathPartV>,
)
    requires
        parse_path_from(s, i, cur, parts) is Ok,
    ensures
        parse_path_from(s, i, cur, pre + parts) == Ok::<Seq<PathPartV>, Seq<char>>(
            pre + parse_path_from(s, i, cur, parts)->Ok_0,
        ),
    decreases s.len() + 1 - i,
{
    let fp = crate::path::flush(cur, parts);
    assert(crate::path::flush(cur, pre + parts) =~= pre + fp);
    if i < 0 || i >= s.len() {
    } else if s[i] == '.' {
        lemma_parts_prefix(s, i + 1, Seq::empty(), fp, pre);
    } else if s[i] == '[' {
        if i + 1 < s.len() && (s[i + 1] == '\'' || s[i + 1] == '"') {
            let j = find_from(s, i + 2, s[i + 1]);
            lemma_find_from(s, i + 2, s[i + 1]);
            let x = PathPartV::MapKey(s.subrange(i + 2, j));
            assert((pre + fp).push(x) =~= pre + fp.push(x));
            lemma_parts_prefix(s, j + 2, Seq::empty(), fp.push(x), pre);
        } else {
            let j = find_from(s, i + 1, ']');
            lemma_find_from(s, i + 1, ']');
            let x = crate::path::bracket_part(s.subrange(i + 1, j));
            assert((pre + fp).push(x) =~= pre + fp.push(x));
            lemma_parts_prefix(s, j + 1, Seq::empty(), fp.push(x), pre);
        }
    } else {
        lemma_parts_prefix(s, i + 1, cur.push(s[i]), parts, pre);
    }
}

/// The pending name and the parts after reading `p` from position `i` on,
/// where `p` holds no `[`.
pub open spec fn scan(p: Seq<char>, i: int, cur: Seq<char>, parts: Seq<PathPartV>) -> (
    Seq<char>,
    Seq<PathPartV>,
)
    decreases p.len() - i,
{
    if i < 0 || i >= p.len() {
        (cur, parts)
    } else if p[i] == '.' {
        scan(p, i + 1, Seq::empty(), crate::path::flush(cur, parts))
    } else {
        scan(p, i + 1, cur.push(p[i]), parts)
    }
}

pub open spec fn no_bracket(p: Seq<char>) -> bool {
    forall|i: int| 0 <= i < p.len() ==> #[trigger] p[i] != '['
}

/// Reading a prefix without `[` of a longer text.
proof fn lemma_scan_prefix(s: Seq<char>, p: Seq<char>, i: int, cur: Seq<char>, parts: Seq<PathPartV>)
    requires
        0 <= i <= p.len() <= s.len(),
        s.subrange(0, p.len() as int) == p,
        no_bracket(p),
    ensures
        parse_path_from(s, i, cur, parts) == parse_path_from(
            s,
            p.len() as int,
            scan(p, i, cur, parts).0,
            scan(p, i, cur, parts).1,
        ),
    decreases p.len() - i,
{
    if i < p.len() {
        assert(s[i] == s.subrange(0, p.len() as int)[i]);
        assert(p[i] != '[');
        if p[i] == '.' {
            lemma_scan_prefix(s, p, i + 1, Seq::empty(), crate::path::flush(cur, parts));
        } else {
            lemma_scan_prefix(s, p, i + 1, cur.push(p[i]), parts);
        }
    }
}

/// Two paths joined by a dot read as the parts of the first, then those of
/// the second, where the first holds no `[`.
pub proof fn law_join_paths(p: Seq<char>, q: Seq<char>)
    requires
        no_bracket(p),
        parse_path_spec(p) is Ok,
        parse_path_spec(q) is Ok,
    ensures
        parse_path_spec(p + seq!['.'] + q) == Ok::<Seq<PathPartV>, Seq<char>>(
            parse_path_spec(p)->Ok_0 + parse_path_spec(q)->Ok_0,
        ),
{
    let s = p + seq!['.'] + q;
    let a = parse_path_spec(p)->Ok_0;
    let b = parse_path_spec(q)->Ok_0;
    assert(p.subrange(0, p.len() as int) =~= p);
    lemma_scan_prefix(p, p, 0, Seq::empty(), Seq::empty());
    let (c, ps) = scan(p, 0, Seq::empty(), Seq::empty());
    assert(a == crate::path::flush(c, ps));
    assert(s.subrange(0, p.len() as int) =~= p);
    lemma_scan_prefix(s, p, 0, Seq::empty(), Seq::empty());
    assert(s[p.len() as int] == '.');
    let pre = p + seq!['.'];
    assert(s =~= pre + q);
    lemma_path_shift(pre, q, 0, Seq::empty(), a);
    lemma_parts_prefix(q, 0, Seq::empty(), Seq::empty(), a);
    assert(a + Seq::<PathPartV>::empty() =~= a);
}

/// The field parts of the dot-separated pieces of a text, empty pieces
/// skipped.
pub open spec fn dot_fields(p: Seq<char>) -> Seq<PathPartV>
    decreases p.len(),
{
    let k = find_from(p, 0, '.');
    let seg = p.subrange(0, k);
    let first = if seg.len() == 0 {
        Seq::empty()
    } else {
        seq![PathPartV::Field(seg)]
    };
    if k < p.len() {
        proof {
            crate::path::lemma_find_from(p, 0, '.');
        }
        first + dot_fields(p.subrange(k + 1, p.len() as int))
    } else {
        first
    }
}

proof fn lemma_scan_run(p: Seq<char>, i: int, k: int, cur: Seq<char>, parts: Seq<PathPartV>)
    requires
        0 <= i <= k <= p.len(),
        forall|x: int| i <= x < k ==> #[trigger] p[x] != '.',
    ensures
        scan(p, i, cur, parts) == scan(p, k, cur + p.subrange(i, k), parts),
    decreases k - i,
{
    if i < k {
        assert(p[i] != '.');
        lemma_scan_run(p, i + 1, k, cur.push(p[i]), parts);
        assert(cur.push(p[i]) + p.subrange(i + 1, k) =~= cur + p.subrange(i, k));
    } else {
        assert(cur + p.subrange(i, k) =~= cur);
    }
}

proof fn lemma_scan_shift(p: Seq<char>, k: int, i: int, cur: Seq<char>, parts: Seq<PathPartV>)
    requires
        0 <= k <= p.len(),
        0 <= i,
    ensures
        scan(p, k + i, cur, parts) == scan(p.subrange(k, p.len() as int), i, cur, parts),
    decreases p.len() - k - i,
{
    let r = p.subrange(k, p.len() as int);
    if k + i < p.len() {
        assert(r[i] == p[k + i]);
        if p[k + i] == '.' {
            lemma_scan_shift(p, k, i + 1, Seq::empty(), crate::path::flush(cur, parts));
        } else {
            lemma_scan_shift(p, k, i + 1, cur.push(p[k + i]), parts);
        }
    }
}

proof fn lemma_scan_fields(p: Seq<char>, pre: Seq<PathPartV>)
    ensures
        crate::path::flush(scan(p, 0, Seq::empty(), pre).0, scan(p, 0, Seq::empty(), pre).1) == pre
            + dot_fields(p),
    decreases p.len(),
{
    let k = find_from(p, 0, '.');
    lemma_find_from(p, 0, '.');
    let seg = p.subrange(0, k);
    lemma_scan_run(p, 0, k, Seq::empty(), pre);
    assert(Seq::<char>::empty() + seg =~= seg);
    let first = if seg.len() == 0 {
        Seq::<PathPartV>::empty()
    } else {
        seq![PathPartV::Field(seg)]
    };
    assert(crate::path::flush(seg, pre) =~= pre + first);
    if k < p.len() {
        let rest = p.subrange(k + 1, p.len() as int);
        lemma_scan_shift(p, k + 1, 0, Seq::empty(), pre + first);
        lemma_scan_fields(rest, pre + first);
        assert(pre + first + dot_fields(rest) =~= pre + (first + dot_fields(rest)));
    } else {
        assert(pre + first =~= pre + dot_fields(p));
    }
}

/// A path without `[` reads as the fields of its dot-separated pieces, empty
/// pieces skipped; where there is none, it is the empty-path error.
pub proof fn law_dotted_text(p: Seq<char>)
    requires
        no_bracket(p),
    ensures
        parse_path_spec(p) == if dot_fields(p).len() == 0 {
            Err::<Seq<PathPartV>, Seq<char>>(crate::path::msg_empty_path())
        } else {
            Ok(dot_fields(p))
        },
{
    assert(p.subrange(0, p.len() as int) =~= p);
    lemma_scan_prefix(p, p, 0, Seq::empty(), Seq::empty());
    lemma_scan_fields(p, Seq::empty());
    assert(Seq::<PathPartV>::empty() + dot_fields(p) =~= dot_fields(p));
}

} // verus!

verus! {

/// A step that succeeds does not depend on the path text that errors would
/// name, nor, for a value that is no map, on the map key type.
proof fn lemma_apply_indep(
    s: Schema,
    v: ValueV,
    k1: Option<Kind>,
    k2: Option<Kind>,
    part: PathPartV,
    p1: Seq<char>,
    p2: Seq<char>,
)
    requires
        k1 == k2 || !(v is MapOf),
    ensures
        (apply_part_spec(s, v, k1, part, p1) is Ok) == (apply_part_spec(s, v, k2, part, p2) is Ok),
        apply_part_spec(s, v, k1, part, p1) is Ok ==> apply_part_spec(s, v, k1, part, p1)->Ok_0
            == apply_part_spec(s, v, k2, part, p2)->Ok_0,
{
    match (v, part) {
        (ValueV::MapOf(e), PathPartV::MapKey(key)) => {
            assert((parse_map_key_spec(key, k1, p1) is Ok) == (parse_map_key_spec(key, k2, p2) is Ok));
        },
        (ValueV::MapOf(e), PathPartV::Index(i)) => {
            let key = int_text(i as int);
            assert((parse_map_key_spec(key, k1, p1) is Ok) == (parse_map_key_spec(key, k2, p2) is Ok));
        },
        _ => {},
    }
}

proof fn lemma_nav_relate(
    s: Schema,
    start: ValueV,
    x: PathPartV,
    b: Seq<PathPartV>,
    k: nat,
    p1: Seq<char>,
    p2: Seq<char>,
    v0: ValueV,
    kk: Option<Kind>,
)
    requires
        apply_part_spec(s, start, None, x, p1) == Ok::<(ValueV, Option<Kind>), ErrorV>((v0, kk)),
        !(v0 is MapOf),
        k <= b.len(),
    ensures
        ({
            let n1 = navigate_spec(s, start, seq![x] + b, k + 1, p1);
            let n2 = navigate_spec(s, v0, b, k, p2);
            &&& (n1 is Ok) == (n2 is Ok)
            &&& n1 is Ok ==> n1->Ok_0.0 == n2->Ok_0.0
            &&& (n1 is Ok && k > 0) ==> n1->Ok_0.1 == n2->Ok_0.1
        }),
    decreases k,
{
    let parts = seq![x] + b;
    assert(parts[0] == x);
    assert(navigate_spec(s, start, parts, 0, p1) == Ok::<(ValueV, Option<Kind>), ErrorV>(
        (start, None),
    ));
    if k > 0 {
        let j = (k - 1) as nat;
        lemma_nav_relate(s, start, x, b, j, p1, p2, v0, kk);
        assert(parts[k as int] == b[j as int]);
        let n1 = navigate_spec(s, start, parts, k, p1);
        let n2 = navigate_spec(s, v0, b, j, p2);
        if n1 is Ok {
            let (v, a1) = n1->Ok_0;
            let a2 = n2->Ok_0.1;
            if j == 0 {
                assert(v == v0);
            }
            lemma_apply_indep(s, v, a1, a2, b[j as int], p1, p2);
            assert(navigate_spec(s, start, parts, k + 1, p1) == apply_part_spec(
                s,
                v,
                a1,
                b[j as int],
                p1,
            ));
            assert(navigate_spec(s, v0, b, k, p2) == apply_part_spec(s, v, a2, b[j as int], p2));
        }
    }
}

/// A path through a message field reads, inside that field's message, as
/// the rest of the path reads from that message: `a.q` on a message succeeds
/// where `q` succeeds on its field `a`, with the same text. (Errors name the
/// whole path, so they differ in their text.)
pub proof fn law_submessage_path(s: Schema, m: MessageV, fi: nat, q: Seq<char>)
    requires
        s.wf(),
        m.descriptor < s.messages@.len(),
        fi < s.messages@[m.descriptor as int].fields@.len(),
        plain_name(s.messages@[m.descriptor as int].fields@[fi as int].name@),
        get_field_spec(s, m, fi) is Message,
        parse_path_spec(q) is Ok,
    ensures
        ({
            let name = s.messages@[m.descriptor as int].fields@[fi as int].name@;
            let sub = get_field_spec(s, m, fi)->Message_0;
            let whole = extract_field_value_spec(s, m, name + seq!['.'] + q);
            let inner = extract_field_value_spec(s, sub, q);
            &&& (whole is Ok) == (inner is Ok)
            &&& whole is Ok ==> whole == inner
        }),
{
    let f = s.messages@[m.descriptor as int].fields@[fi as int];
    let name = f.name@;
    let sub = get_field_spec(s, m, fi)->Message_0;
    let path = name + seq!['.'] + q;
    law_dotted_path(seq![name]);
    assert(dotted(seq![name]) == name);
    assert(field_parts(seq![name]) =~= seq![PathPartV::Field(name)]);
    assert(no_bracket(name));
    law_join_paths(name, q);
    let b = parse_path_spec(q)->Ok_0;
    let parts = seq![PathPartV::Field(name)] + b;
    assert(parse_path_spec(path) == Ok::<Seq<PathPartV>, Seq<char>>(parts));
    lemma_first_step(s, m, fi, path);
    let kk = crate::extract::map_key_kind_spec(s, m.descriptor, fi);
    let v0 = ValueV::Message(sub);
    assert(resolve_enum_spec(s, get_field_spec(s, m, fi), f.kind) == v0);
    lemma_nav_relate(s, ValueV::Message(m), PathPartV::Field(name), b, b.len(), path, q, v0, kk);
    assert(parts.len() == b.len() + 1);
}

} // verus!
