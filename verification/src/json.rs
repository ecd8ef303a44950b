//! The JSON document model the library reads and writes.
//!
//! It holds what serde_json's `Value` holds. Objects keep their entries in
//! the order given; serde_json's own map sorts keys.

use vstd::prelude::*;

verus! {

/// A JSON number as serde_json stores it. For a float, `fits_f32` tells
/// whether narrowing it to `f32` stays finite.
#[derive(Debug, Clone, Copy, PartialEq, Eq, Structural)]
pub enum JsonNumber {
    PosInt(u64),
    NegInt(i64),
    Float { bits: u64, fits_f32: bool },
}

#[derive(Debug, PartialEq)]
pub enum JsonValue {
    Null,
    Bool(bool),
    Number(JsonNumber),
    String(String),
    Array(Vec<JsonValue>),
    Object(Vec<(String, JsonValue)>),
}

pub enum JsonV {
    Null,
    Bool(bool),
    Number(JsonNumber),
    Str(Seq<char>),
    Array(Seq<JsonV>),
    Object(Seq<(Seq<char>, JsonV)>),
}

pub open spec fn json_view(j: JsonValue) -> JsonV
    decreases j,
{
    match j {
        JsonValue::Null => JsonV::Null,
        JsonValue::Bool(b) => JsonV::Bool(b),
        JsonValue::Number(n) => JsonV::Number(n),
        JsonValue::String(s) => JsonV::Str(s@),
        JsonValue::Array(items) => JsonV::Array(json_seq_view(items@)),
        JsonValue::Object(entries) => JsonV::Object(json_entries_view(entries@)),
    }
}

pub open spec fn json_seq_view(s: Seq<JsonValue>) -> Seq<JsonV>
    decreases s,
{
    if s.len() == 0 {
        Seq::empty()
    } else {
        json_seq_view(s.drop_last()).push(json_view(s.last()))
    }
}

pub open spec fn json_entries_view(s: Seq<(String, JsonValue)>) -> Seq<(Seq<char>, JsonV)>
    decreases s,
{
    if s.len() == 0 {
        Seq::empty()
    } else {
        json_entries_view(s.drop_last()).push((s.last().0@, json_view(s.last().1)))
    }
}

impl View for JsonValue {
    type V = JsonV;

    open spec fn view(&self) -> JsonV {
        json_view(*self)
    }
}

} // verus!

verus! {

pub proof fn lemma_json_seq_view(s: Seq<JsonValue>)
    ensures
        json_seq_view(s).len() == s.len(),
        forall|k: int| 0 <= k < s.len() ==> #[trigger] json_seq_view(s)[k] == json_view(s[k]),
    decreases s.len(),
{
    if s.len() > 0 {
        lemma_json_seq_view(s.drop_last());
        assert forall|k: int| 0 <= k < s.len() implies #[trigger] json_seq_view(s)[k] == json_view(
            s[k],
        ) by {
            if k < s.len() - 1 {
                assert(s.drop_last()[k] == s[k]);
            }
        }
    }
}

pub proof fn lemma_json_entries_view(s: Seq<(String, JsonValue)>)
    ensures
        json_entries_view(s).len() == s.len(),
        forall|k: int|
            0 <= k < s.len() ==> #[trigger] json_entries_view(s)[k] == (s[k].0@, json_view(s[k].1)),
    decreases s.len(),
{
    if s.len() > 0 {
        lemma_json_entries_view(s.drop_last());
        assert forall|k: int| 0 <= k < s.len() implies #[trigger] json_entries_view(s)[k] == (
            s[k].0@,
            json_view(s[k].1),
        ) by {
            if k < s.len() - 1 {
                assert(s.drop_last()[k] == s[k]);
            }
        }
    }
}

} // verus!

verus! {

/// A deep copy of a JSON value.
#[verifier::loop_isolation(false)]
pub fn clone_json(j: &JsonValue) -> (r: JsonValue)
    ensures
        r@ == j@,
    decreases j,
{
    match j {
        JsonValue::Null => JsonValue::Null,
        JsonValue::Bool(b) => JsonValue::Bool(*b),
        JsonValue::Number(n) => JsonValue::Number(*n),
        JsonValue::String(t) => JsonValue::String(t.clone()),
        JsonValue::Array(items) => {
            let mut out: Vec<JsonValue> = Vec::new();
            let mut i: usize = 0;
            while i < items.len()
                invariant
                    i <= items@.len(),
                    json_seq_view(out@) == json_seq_view(items@.subrange(0, i as int)),
                decreases items@.len() - i,
            {
                assert(decreases_to!(*items => items@[i as int]));
                let c = clone_json(&items[i]);
                let ghost before = out@;
                out.push(c);
                assert(out@.drop_last() =~= before);
                assert(items@.subrange(0, i + 1).drop_last() =~= items@.subrange(0, i as int));
                i = i + 1;
            }
            assert(items@.subrange(0, items@.len() as int) =~= items@);
            JsonValue::Array(out)
        },
        JsonValue::Object(entries) => {
            let mut out: Vec<(String, JsonValue)> = Vec::new();
            let mut i: usize = 0;
            while i < entries.len()
                invariant
                    i <= entries@.len(),
                    json_entries_view(out@) == json_entries_view(entries@.subrange(0, i as int)),
                decreases entries@.len() - i,
            {
                assert(decreases_to!(*entries => entries@[i as int]));
                assert(decreases_to!(entries@[i as int] => entries@[i as int].1));
                let c = clone_json(&entries[i].1);
                let ghost before = out@;
                out.push((entries[i].0.clone(), c));
                assert(out@.drop_last() =~= before);
                assert(entries@.subrange(0, i + 1).drop_last() =~= entries@.subrange(0, i as int));
                i = i + 1;
            }
            assert(entries@.subrange(0, entries@.len() as int) =~= entries@);
            JsonValue::Object(out)
        },
    }
}

} // verus!
