//! Field paths: `orders[0].items[1].product.name`, `props['key']`.

use vstd::prelude::*;

use crate::error::{ErrorV, ProtoDuckError};
use crate::numeric::{parse_int_spec, parse_unsigned};

verus! {

/// One step of a field path.
#[derive(Debug, Clone, PartialEq)]
pub enum PathPart {
    Field(String),
    Index(usize),
    MapKey(String),
}

pub enum PathPartV {
    Field(Seq<char>),
    Index(nat),
    MapKey(Seq<char>),
}

impl View for PathPart {
    type V = PathPartV;

    open spec fn view(&self) -> PathPartV {
        match self {
            PathPart::Field(s) => PathPartV::Field(s@),
            PathPart::Index(i) => PathPartV::Index(*i as nat),
            PathPart::MapKey(s) => PathPartV::MapKey(s@),
        }
    }
}

pub open spec fn parts_view(v: Seq<PathPart>) -> Seq<PathPartV> {
    v.map_values(|p: PathPart| p@)
}

/// First index at or after `i` holding `c`, or the length when there is none.
pub open spec fn find_from(s: Seq<char>, i: int, c: char) -> int
    decreases s.len() - i,
{
    if i >= s.len() {
        s.len() as int
    } else if s[i] == c {
        i
    } else {
        find_from(s, i + 1, c)
    }
}

pub proof fn lemma_find_from(s: Seq<char>, i: int, c: char)
    requires
        0 <= i <= s.len(),
    ensures
        i <= find_from(s, i, c) <= s.len(),
        find_from(s, i, c) < s.len() ==> s[find_from(s, i, c)] == c,
        forall|k: int| i <= k < find_from(s, i, c) ==> s[k] != c,
    decreases s.len() - i,
{
    if i < s.len() && s[i] != c {
        lemma_find_from(s, i + 1, c);
    }
}

/// Pending field name closes into a part, unless it is empty.
pub open spec fn flush(cur: Seq<char>, parts: Seq<PathPartV>) -> Seq<PathPartV> {
    if cur.len() == 0 {
        parts
    } else {
        parts.push(PathPartV::Field(cur))
    }
}

/// An unquoted bracket holds an index when it parses as `usize`, else a map key.
pub open spec fn bracket_part(key: Seq<char>) -> PathPartV {
    match parse_int_spec(key, 0, usize::MAX as int) {
        Some(n) => PathPartV::Index(n as nat),
        None => PathPartV::MapKey(key),
    }
}

pub open spec fn msg_expected_bracket() -> Seq<char> {
    "Expected ']' after quoted map key"@
}

pub open spec fn msg_empty_path() -> Seq<char> {
    "Empty field path"@
}

/// The parts of `s[i..]`, given the field name `cur` read so far and the
/// parts before it; `Err` holds the text of the syntax error.
pub open spec fn parse_path_from(s: Seq<char>, i: int, cur: Seq<char>, parts: Seq<PathPartV>) -> Result<
    Seq<PathPartV>,
    Seq<char>,
>
    decreases s.len() + 1 - i,
{
    if i < 0 || i >= s.len() {
        let p = flush(cur, parts);
        if p.len() == 0 {
            Err(msg_empty_path())
        } else {
            Ok(p)
        }
    } else if s[i] == '.' {
        parse_path_from(s, i + 1, Seq::empty(), flush(cur, parts))
    } else if s[i] == '[' {
        let p = flush(cur, parts);
        if i + 1 < s.len() && (s[i + 1] == '\'' || s[i + 1] == '"') {
            let j = find_from(s, i + 2, s[i + 1]);
            proof {
                lemma_find_from(s, i + 2, s[i + 1]);
            }
            if j + 1 < s.len() && s[j + 1] == ']' {
                parse_path_from(s, j + 2, Seq::empty(), p.push(PathPartV::MapKey(s.subrange(i + 2, j))))
            } else {
                Err(msg_expected_bracket())
            }
        } else {
            let j = find_from(s, i + 1, ']');
            proof {
                lemma_find_from(s, i + 1, ']');
            }
            parse_path_from(s, j + 1, Seq::empty(), p.push(bracket_part(s.subrange(i + 1, j))))
        }
    } else {
        parse_path_from(s, i + 1, cur.push(s[i]), parts)
    }
}

/// The parts of a whole field path.
pub open spec fn parse_path_spec(s: Seq<char>) -> Result<Seq<PathPartV>, Seq<char>> {
    parse_path_from(s, 0, Seq::empty(), Seq::empty())
}

pub fn string_from_chars(v: &Vec<char>, from: usize, to: usize) -> (s: String)
    requires
        from <= to <= v@.len(),
    ensures
        s@ == v@.subrange(from as int, to as int),
{
    let mut s = String::new();
    let mut i = from;
    while i < to
        invariant
            from <= i <= to <= v@.len(),
            s@ == v@.subrange(from as int, i as int),
        decreases to - i,
    {
        s.push(v[i]);
        i = i + 1;
        assert(s@ =~= v@.subrange(from as int, i as int));
    }
    s
}

fn flush_exec(cur: &mut Vec<char>, parts: &mut Vec<PathPart>)
    ensures
        final(cur)@ == Seq::<char>::empty(),
        parts_view(final(parts)@) == flush(old(cur)@, parts_view(old(parts)@)),
{
    if cur.len() > 0 {
        let name = string_from_chars(cur, 0, cur.len());
        assert(name@ =~= old(cur)@);
        parts.push(PathPart::Field(name));
        assert(parts_view(parts@) =~= flush(old(cur)@, parts_view(old(parts)@)));
        *cur = Vec::new();
    }
}

/// Splits a field path into its parts.
pub fn parse_field_path(path: &str) -> (r: Result<Vec<PathPart>, ProtoDuckError>)
    ensures
        match r {
            Ok(parts) => parse_path_spec(path@) == Ok::<Seq<PathPartV>, Seq<char>>(
                parts_view(parts@),
            ),
            Err(e) => parse_path_spec(path@) matches Err(m) && e@ == ErrorV::InvalidFieldPath(m),
        },
{
    let s = crate::numeric::chars_of(path);
    let n = s.len();
    let mut parts: Vec<PathPart> = Vec::new();
    let mut cur: Vec<char> = Vec::new();
    let mut i: usize = 0;
    assert(parts_view(parts@) =~= Seq::<PathPartV>::empty());
    while i < n
        invariant
            n == s@.len(),
            s@ == path@,
            i <= n,
            parse_path_from(s@, i as int, cur@, parts_view(parts@)) == parse_path_spec(path@),
        decreases n - i,
    {
        let c = s[i];
        let ghost old_cur = cur@;
        let ghost old_parts = parts_view(parts@);
        if c == '.' {
            flush_exec(&mut cur, &mut parts);
            i = i + 1;
        } else if c == '[' {
            flush_exec(&mut cur, &mut parts);
            if i + 1 < n && (s[i + 1] == '\'' || s[i + 1] == '"') {
                let q = s[i + 1];
                let mut j = i + 2;
                proof {
                    lemma_find_from(s@, i + 2, q);
                }
                while j < n && s[j] != q
                    invariant
                        n == s@.len(),
                        i + 2 <= j <= n,
                        forall|k: int| i + 2 <= k < j ==> s@[k] != q,
                    decreases n - j,
                {
                    j = j + 1;
                }
                proof {
                    lemma_find_from(s@, i + 2, q);
                }
                assert(find_from(s@, (i + 2) as int, q) == j);
                if j < n - 1 && s[j + 1] == ']' {
                    let key = string_from_chars(&s, i + 2, j);
                    let ghost before = parts_view(parts@);
                    parts.push(PathPart::MapKey(key));
                    assert(parts_view(parts@) =~= before.push(
                        PathPartV::MapKey(s@.subrange(i + 2, j as int)),
                    ));
                    cur = Vec::new();
                    i = j + 2;
                } else {
                    return Err(ProtoDuckError::InvalidFieldPath("Expected ']' after quoted map key".to_string()));
                }
            } else {
                let mut j = i + 1;
                proof {
                    lemma_find_from(s@, i + 1, ']');
                }
                while j < n && s[j] != ']'
                    invariant
                        n == s@.len(),
                        i + 1 <= j <= n,
                        forall|k: int| i + 1 <= k < j ==> s@[k] != ']',
                    decreases n - j,
                {
                    j = j + 1;
                }
                proof {
                    lemma_find_from(s@, i + 1, ']');
                }
                assert(find_from(s@, (i + 1) as int, ']') == j);
                let mut key: Vec<char> = Vec::new();
                let mut k = i + 1;
                while k < j
                    invariant
                        i + 1 <= k <= j <= n,
                        n == s@.len(),
                        key@ == s@.subrange(i + 1, k as int),
                    decreases j - k,
                {
                    key.push(s[k]);
                    k = k + 1;
                    assert(key@ =~= s@.subrange(i + 1, k as int));
                }
                let ghost before = parts_view(parts@);
                match parse_unsigned(&key, usize::MAX as u64) {
                    Some(idx) => {
                        parts.push(PathPart::Index(idx as usize));
                    },
                    None => {
                        let ks = string_from_chars(&key, 0, key.len());
                        assert(ks@ =~= key@);
                        parts.push(PathPart::MapKey(ks));
                    },
                }
                assert(parts_view(parts@) =~= before.push(bracket_part(s@.subrange(i + 1, j as int))));
                let ghost ps = parts_view(parts@);
                assert(parse_path_from(s@, i as int, old_cur, old_parts) == parse_path_from(
                    s@,
                    j + 1,
                    Seq::empty(),
                    ps,
                ));
                cur = Vec::new();
                if j == n {
                    assert(parse_path_from(s@, j + 1, Seq::empty(), ps) == parse_path_from(
                        s@,
                        n as int,
                        Seq::empty(),
                        ps,
                    ));
                }
                i = if j < n { j + 1 } else { n };
            }
        } else {
            cur.push(c);
            i = i + 1;
        }
    }
    if cur.len() > 0 {
        flush_exec(&mut cur, &mut parts);
    }
    if parts.len() == 0 {
        return Err(ProtoDuckError::InvalidFieldPath("Empty field path".to_string()));
    }
    Ok(parts)
}

} // verus!
