//! Protobuf schema, as the plain data that the conversions read: message
//! types with their fields, and enum types with their values. Types refer to
//! each other by index into the schema.

use vstd::prelude::*;

use crate::error::{ErrorV, ProtoDuckError};
use crate::value::{MapKeyV, MessageV, Value, ValueV};

verus! {

/// The type of a field. `Enum` and `Message` hold an index into
/// `Schema::enums` and `Schema::messages`.
#[derive(Debug, Clone, Copy, PartialEq, Eq, Structural)]
pub enum Kind {
    Double,
    Float,
    Int64,
    Uint64,
    Int32,
    Fixed64,
    Fixed32,
    Bool,
    String,
    Bytes,
    Uint32,
    Sfixed32,
    Sfixed64,
    Sint32,
    Sint64,
    Enum(usize),
    Message(usize),
}

/// A field of a message type. `default_value` is what reading the field
/// gives when it is not set.
#[derive(Debug)]
pub struct FieldDescriptor {
    pub name: String,
    pub kind: Kind,
    pub is_list: bool,
    pub is_map: bool,
    pub default_value: Value,
    /// The oneof of the message type that holds the field, by its index
    /// among the type's oneofs; setting one field of a oneof clears the
    /// others.
    pub oneof: Option<usize>,
}

/// A message type. A map entry type holds exactly its key field and then
/// its value field.
#[derive(Debug)]
pub struct MessageDescriptor {
    pub full_name: String,
    pub fields: Vec<FieldDescriptor>,
    pub is_map_entry: bool,
}

#[derive(Debug)]
pub struct EnumValueDescriptor {
    pub name: String,
    pub number: i32,
}

/// An enum type. Where several names share a number, the first of them is
/// the one that a number reads as.
#[derive(Debug)]
pub struct EnumDescriptor {
    pub full_name: String,
    pub values: Vec<EnumValueDescriptor>,
}

#[derive(Debug)]
pub struct Schema {
    pub messages: Vec<MessageDescriptor>,
    pub enums: Vec<EnumDescriptor>,
}

impl Schema {
    pub open spec fn kind_wf(&self, k: Kind) -> bool {
        match k {
            Kind::Enum(e) => e < self.enums@.len(),
            Kind::Message(m) => m < self.messages@.len(),
            _ => true,
        }
    }

    pub open spec fn field_wf(&self, f: FieldDescriptor) -> bool {
        &&& self.kind_wf(f.kind)
        &&& value_ok(*self, f.default_value@)
        &&& !(f.is_list && f.is_map)
        &&& f.is_map ==> (f.kind matches Kind::Message(m) && self.messages@[m as int].is_map_entry)
        &&& f.oneof is Some ==> !f.is_list && !f.is_map
    }

    pub open spec fn message_wf(&self, m: MessageDescriptor) -> bool {
        &&& forall|i: int| 0 <= i < m.fields@.len() ==> self.field_wf(#[trigger] m.fields@[i])
        &&& m.is_map_entry ==> m.fields@.len() == 2
    }

    /// Every index in the schema points at a type of it, map fields have map
    /// entry types, no list or map is in a oneof, and names are distinct
    /// within a message type or an enum, as protobuf requires.
    pub open spec fn wf(&self) -> bool {
        &&& forall|i: int| 0 <= i < self.messages@.len() ==> self.message_wf(#[trigger] self.messages@[i])
        &&& field_names_distinct(*self)
        &&& enum_names_distinct(*self)
    }

    pub open spec fn message(&self, m: nat) -> MessageDescriptor {
        self.messages@[m as int]
    }

    pub open spec fn field(&self, m: nat, f: nat) -> FieldDescriptor {
        self.messages@[m as int].fields@[f as int]
    }
}

/// No two values of an enum share a name.
pub open spec fn enum_names_distinct(s: Schema) -> bool {
    forall|e: int, i: int, j: int|
        0 <= e < s.enums@.len() && 0 <= i < j < s.enums@[e].values@.len() ==> #[trigger] s.enums@[e].values@[i].name@
            != #[trigger] s.enums@[e].values@[j].name@
}

/// No two fields of a message type share a name.
pub open spec fn field_names_distinct(s: Schema) -> bool {
    forall|m: int, i: int, j: int|
        0 <= m < s.messages@.len() && 0 <= i < j < s.messages@[m].fields@.len() ==> #[trigger] s.messages@[m].fields@[i].name@
            != #[trigger] s.messages@[m].fields@[j].name@
}

/// No key occurs twice among the entries of a map.
pub open spec fn keys_distinct(e: Seq<(MapKeyV, ValueV)>) -> bool {
    forall|i: int, j: int| 0 <= i < j < e.len() ==> #[trigger] e[i].0 != #[trigger] e[j].0
}

/// A value fits the schema: each message in it names a message type of the
/// schema, each map holds each key once, and each `bytes` value is short
/// enough to be encoded as base64 text without overflowing `usize`.
pub open spec fn value_ok(s: Schema, v: ValueV) -> bool
    decreases v,
{
    match v {
        ValueV::Bytes(b) => b.len() <= usize::MAX / 2,
        ValueV::Message(m) => m.descriptor < s.messages@.len() && fields_ok(s, m.fields),
        ValueV::List(l) => seq_ok(s, l),
        ValueV::MapOf(e) => entries_ok(s, e) && keys_distinct(e),
        _ => true,
    }
}

pub open spec fn seq_ok(s: Schema, l: Seq<ValueV>) -> bool
    decreases l,
{
    l.len() == 0 || (seq_ok(s, l.drop_last()) && value_ok(s, l.last()))
}

pub open spec fn entries_ok(s: Schema, e: Seq<(MapKeyV, ValueV)>) -> bool
    decreases e,
{
    e.len() == 0 || (entries_ok(s, e.drop_last()) && value_ok(s, e.last().1))
}

pub open spec fn fields_ok(s: Schema, f: Seq<(nat, ValueV)>) -> bool
    decreases f,
{
    f.len() == 0 || (fields_ok(s, f.drop_last()) && value_ok(s, f.last().1))
}

pub open spec fn message_ok(s: Schema, m: MessageV) -> bool {
    value_ok(s, ValueV::Message(m))
}

pub proof fn lemma_seq_ok(s: Schema, l: Seq<ValueV>)
    ensures
        seq_ok(s, l) <==> forall|i: int| 0 <= i < l.len() ==> value_ok(s, #[trigger] l[i]),
    decreases l.len(),
{
    if l.len() > 0 {
        lemma_seq_ok(s, l.drop_last());
        if forall|i: int| 0 <= i < l.len() ==> value_ok(s, #[trigger] l[i]) {
            assert forall|i: int| 0 <= i < l.drop_last().len() implies value_ok(
                s,
                #[trigger] l.drop_last()[i],
            ) by {
                assert(l.drop_last()[i] == l[i]);
            }
        }
        if seq_ok(s, l) {
            assert forall|i: int| 0 <= i < l.len() implies value_ok(s, #[trigger] l[i]) by {
                if i < l.len() - 1 {
                    assert(l.drop_last()[i] == l[i]);
                }
            }
        }
    }
}

pub proof fn lemma_entries_ok(s: Schema, e: Seq<(MapKeyV, ValueV)>)
    ensures
        entries_ok(s, e) <==> forall|i: int| 0 <= i < e.len() ==> value_ok(s, #[trigger] e[i].1),
    decreases e.len(),
{
    if e.len() > 0 {
        lemma_entries_ok(s, e.drop_last());
        if forall|i: int| 0 <= i < e.len() ==> value_ok(s, #[trigger] e[i].1) {
            assert forall|i: int| 0 <= i < e.drop_last().len() implies value_ok(
                s,
                #[trigger] e.drop_last()[i].1,
            ) by {
                assert(e.drop_last()[i] == e[i]);
            }
        }
        if entries_ok(s, e) {
            assert forall|i: int| 0 <= i < e.len() implies value_ok(s, #[trigger] e[i].1) by {
                if i < e.len() - 1 {
                    assert(e.drop_last()[i] == e[i]);
                }
            }
        }
    }
}

pub proof fn lemma_fields_ok(s: Schema, f: Seq<(nat, ValueV)>)
    ensures
        fields_ok(s, f) <==> forall|i: int| 0 <= i < f.len() ==> value_ok(s, #[trigger] f[i].1),
    decreases f.len(),
{
    if f.len() > 0 {
        lemma_fields_ok(s, f.drop_last());
        if forall|i: int| 0 <= i < f.len() ==> value_ok(s, #[trigger] f[i].1) {
            assert forall|i: int| 0 <= i < f.drop_last().len() implies value_ok(
                s,
                #[trigger] f.drop_last()[i].1,
            ) by {
                assert(f.drop_last()[i] == f[i]);
            }
        }
        if fields_ok(s, f) {
            assert forall|i: int| 0 <= i < f.len() implies value_ok(s, #[trigger] f[i].1) by {
                if i < f.len() - 1 {
                    assert(f.drop_last()[i] == f[i]);
                }
            }
        }
    }
}

/// Index of the first field called `name`.
pub open spec fn field_index_spec(fields: Seq<FieldDescriptor>, name: Seq<char>) -> Option<nat>
    decreases fields.len(),
{
    if fields.len() == 0 {
        None
    } else {
        match field_index_spec(fields.drop_last(), name) {
            Some(i) => Some(i),
            None => if fields.last().name@ == name {
                Some((fields.len() - 1) as nat)
            } else {
                None
            },
        }
    }
}

pub proof fn lemma_field_index(fields: Seq<FieldDescriptor>, name: Seq<char>)
    ensures
        field_index_spec(fields, name) matches Some(i) ==> i < fields.len() && fields[i as int].name@
            == name,
        field_index_spec(fields, name) is None ==> forall|k: int|
            0 <= k < fields.len() ==> #[trigger] fields[k].name@ != name,
    decreases fields.len(),
{
    if fields.len() > 0 {
        lemma_field_index(fields.drop_last(), name);
        if field_index_spec(fields.drop_last(), name) is None {
            assert forall|k: int| 0 <= k < fields.len() - 1 implies #[trigger] fields[k].name@
                != name by {
                assert(fields.drop_last()[k] == fields[k]);
            }
        }
    }
}

/// A match found in a prefix is the match of the whole sequence.
pub proof fn lemma_field_index_prefix(fields: Seq<FieldDescriptor>, name: Seq<char>, j: int)
    requires
        0 <= j <= fields.len(),
        field_index_spec(fields.subrange(0, j), name) is Some,
    ensures
        field_index_spec(fields, name) == field_index_spec(fields.subrange(0, j), name),
    decreases fields.len(),
{
    if j == fields.len() {
        assert(fields.subrange(0, j) =~= fields);
    } else {
        assert(fields.drop_last().subrange(0, j) =~= fields.subrange(0, j));
        lemma_field_index_prefix(fields.drop_last(), name, j);
    }
}

pub fn str_eq(a: &String, b: &str) -> (r: bool)
    ensures
        r == (a@ == b@),
{
    let ac = crate::numeric::chars_of(a.as_str());
    let bc = crate::numeric::chars_of(b);
    if ac.len() != bc.len() {
        return false;
    }
    let mut i: usize = 0;
    while i < ac.len()
        invariant
            ac@ == a@,
            bc@ == b@,
            ac@.len() == bc@.len(),
            i <= ac@.len(),
            forall|k: int| 0 <= k < i ==> ac@[k] == bc@[k],
        decreases ac@.len() - i,
    {
        if ac[i] != bc[i] {
            return false;
        }
        i = i + 1;
    }
    assert(ac@ =~= bc@);
    true
}

/// `MessageDescriptor::get_field_by_name`: the index of the field `name`.
pub fn get_field_by_name(m: &MessageDescriptor, name: &str) -> (r: Option<usize>)
    ensures
        match r {
            Some(i) => field_index_spec(m.fields@, name@) == Some(i as nat),
            None => field_index_spec(m.fields@, name@) is None,
        },
{
    let mut i: usize = 0;
    while i < m.fields.len()
        invariant
            i <= m.fields@.len(),
            field_index_spec(m.fields@.subrange(0, i as int), name@) is None,
        decreases m.fields@.len() - i,
    {
        let ghost pre = m.fields@.subrange(0, i as int);
        assert(m.fields@.subrange(0, i + 1).drop_last() =~= pre);
        if str_eq(&m.fields[i].name, name) {
            proof {
                lemma_field_index_prefix(m.fields@, name@, i + 1);
            }
            return Some(i);
        }
        i = i + 1;
    }
    assert(m.fields@.subrange(0, m.fields@.len() as int) =~= m.fields@);
    None
}

/// Index of the first message type called `name`.
pub open spec fn message_index_spec(messages: Seq<MessageDescriptor>, name: Seq<char>) -> Option<nat>
    decreases messages.len(),
{
    if messages.len() == 0 {
        None
    } else {
        match message_index_spec(messages.drop_last(), name) {
            Some(i) => Some(i),
            None => if messages.last().full_name@ == name {
                Some((messages.len() - 1) as nat)
            } else {
                None
            },
        }
    }
}

pub proof fn lemma_message_index(messages: Seq<MessageDescriptor>, name: Seq<char>)
    ensures
        message_index_spec(messages, name) matches Some(i) ==> i < messages.len()
            && messages[i as int].full_name@ == name,
    decreases messages.len(),
{
    if messages.len() > 0 {
        lemma_message_index(messages.drop_last(), name);
    }
}

proof fn lemma_message_index_prefix(messages: Seq<MessageDescriptor>, name: Seq<char>, j: int)
    requires
        0 <= j <= messages.len(),
        message_index_spec(messages.subrange(0, j), name) is Some,
    ensures
        message_index_spec(messages, name) == message_index_spec(messages.subrange(0, j), name),
    decreases messages.len(),
{
    if j == messages.len() {
        assert(messages.subrange(0, j) =~= messages);
    } else {
        assert(messages.drop_last().subrange(0, j) =~= messages.subrange(0, j));
        lemma_message_index_prefix(messages.drop_last(), name, j);
    }
}

/// What looking a message type up by its full name gives.
pub open spec fn get_message_descriptor_spec(s: Schema, name: Seq<char>) -> Result<nat, ErrorV> {
    match message_index_spec(s.messages@, name) {
        Some(i) => Ok(i),
        None => Err(ErrorV::MessageTypeNotFound(name)),
    }
}

/// The message type registered under `message_type`, by its index.
pub fn get_message_descriptor(s: &Schema, message_type: &str) -> (r: Result<usize, ProtoDuckError>)
    ensures
        match r {
            Ok(i) => get_message_descriptor_spec(*s, message_type@) == Ok::<nat, ErrorV>(i as nat)
                && i < s.messages@.len(),
            Err(e) => get_message_descriptor_spec(*s, message_type@) == Err::<nat, ErrorV>(e@),
        },
{
    let mut i: usize = 0;
    while i < s.messages.len()
        invariant
            i <= s.messages@.len(),
            message_index_spec(s.messages@.subrange(0, i as int), message_type@) is None,
        decreases s.messages@.len() - i,
    {
        assert(s.messages@.subrange(0, i + 1).drop_last() =~= s.messages@.subrange(0, i as int));
        if str_eq(&s.messages[i].full_name, message_type) {
            proof {
                lemma_message_index_prefix(s.messages@, message_type@, i + 1);
            }
            return Ok(i);
        }
        i = i + 1;
    }
    assert(s.messages@.subrange(0, s.messages@.len() as int) =~= s.messages@);
    Err(ProtoDuckError::MessageTypeNotFound(crate::text::owned(message_type)))
}

} // verus!

verus! {

impl Schema {
    /// Whether `k` names a type of the schema.
    pub fn check_kind(&self, k: Kind) -> (r: bool)
        ensures
            r == self.kind_wf(k),
    {
        match k {
            Kind::Enum(e) => e < self.enums.len(),
            Kind::Message(m) => m < self.messages.len(),
            _ => true,
        }
    }

    /// Whether a value fits the schema.
    #[verifier::loop_isolation(false)]
    pub fn check_value(&self, v: &Value) -> (r: bool)
        ensures
            r == value_ok(*self, v@),
        decreases v,
    {
        match v {
            Value::Bytes(b) => b.len() <= usize::MAX / 2,
            Value::Message(m) => {
                if m.descriptor >= self.messages.len() {
                    return false;
                }
                let ghost fv = crate::value::field_entries_view(m.fields@);
                proof {
                    crate::value::lemma_field_entries_view(m.fields@);
                }
                let mut i: usize = 0;
                assert(fv.subrange(0, 0) =~= Seq::<(nat, ValueV)>::empty());
                while i < m.fields.len()
                    invariant
                        i <= m.fields@.len(),
                        fields_ok(*self, fv.subrange(0, i as int)),
                    decreases m.fields@.len() - i,
                {
                    assert(fv.subrange(0, i + 1).drop_last() =~= fv.subrange(0, i as int));
                    assert(decreases_to!(*m => m.fields@[i as int].1));
                    if !self.check_value(&m.fields[i].1) {
                        proof {
                            lemma_fields_ok(*self, fv);
                            assert(!value_ok(*self, fv[i as int].1));
                            assert(v@ == ValueV::Message(m@));
                        }
                        return false;
                    }
                    i = i + 1;
                }
                assert(fv.subrange(0, fv.len() as int) =~= fv);
                true
            },
            Value::List(items) => {
                let ghost lv = crate::value::value_seq_view(items@);
                proof {
                    crate::value::lemma_value_seq_view(items@);
                }
                let mut i: usize = 0;
                assert(lv.subrange(0, 0) =~= Seq::<ValueV>::empty());
                while i < items.len()
                    invariant
                        i <= items@.len(),
                        seq_ok(*self, lv.subrange(0, i as int)),
                    decreases items@.len() - i,
                {
                    assert(lv.subrange(0, i + 1).drop_last() =~= lv.subrange(0, i as int));
                    assert(decreases_to!(*items => items@[i as int]));
                    if !self.check_value(&items[i]) {
                        proof {
                            lemma_seq_ok(*self, lv);
                            assert(!value_ok(*self, lv[i as int]));
                            assert(v@ == ValueV::List(lv));
                        }
                        return false;
                    }
                    i = i + 1;
                }
                assert(lv.subrange(0, lv.len() as int) =~= lv);
                true
            },
            Value::MapOf(entries) => {
                let ghost ev = crate::value::map_entries_view(entries@);
                proof {
                    crate::value::lemma_map_entries_view(entries@);
                }
                let mut i: usize = 0;
                assert(ev.subrange(0, 0) =~= Seq::<(MapKeyV, ValueV)>::empty());
                while i < entries.len()
                    invariant
                        i <= entries@.len(),
                        entries_ok(*self, ev.subrange(0, i as int)),
                    decreases entries@.len() - i,
                {
                    assert(ev.subrange(0, i + 1).drop_last() =~= ev.subrange(0, i as int));
                    assert(decreases_to!(*entries => entries@[i as int]));
                    assert(decreases_to!(entries@[i as int] => entries@[i as int].1));
                    if !self.check_value(&entries[i].1) {
                        proof {
                            lemma_entries_ok(*self, ev);
                            assert(!value_ok(*self, ev[i as int].1));
                            assert(v@ == ValueV::MapOf(ev));
                        }
                        return false;
                    }
                    i = i + 1;
                }
                assert(ev.subrange(0, ev.len() as int) =~= ev);
                assert(v@ == ValueV::MapOf(ev));
                let mut a: usize = 0;
                while a < entries.len()
                    invariant
                        a <= entries@.len(),
                        entries_ok(*self, ev),
                        forall|p: int, q: int|
                            0 <= p < q < entries@.len() && p < a ==> #[trigger] ev[p].0
                                != #[trigger] ev[q].0,
                    decreases entries@.len() - a,
                {
                    let mut b: usize = a + 1;
                    while b < entries.len()
                        invariant
                            a < entries@.len(),
                            a + 1 <= b <= entries@.len(),
                            forall|q: int| a < q < b ==> ev[a as int].0 != #[trigger] ev[q].0,
                        decreases entries@.len() - b,
                    {
                        if crate::extract::map_key_eq(&entries[a].0, &entries[b].0) {
                            assert(ev[a as int].0 == ev[b as int].0);
                            assert(!keys_distinct(ev));
                            return false;
                        }
                        b = b + 1;
                    }
                    a = a + 1;
                }
                true
            },
            _ => true,
        }
    }

    /// Whether a field is well formed in the schema.
    pub fn check_field(&self, f: &FieldDescriptor) -> (r: bool)
        ensures
            r == self.field_wf(*f),
    {
        if !self.check_kind(f.kind) || !self.check_value(&f.default_value) {
            return false;
        }
        if f.is_list && f.is_map {
            return false;
        }
        if f.oneof.is_some() && (f.is_list || f.is_map) {
            return false;
        }
        if f.is_map {
            match f.kind {
                Kind::Message(m) => self.messages[m].is_map_entry,
                _ => false,
            }
        } else {
            true
        }
    }

    /// Whether no two fields of a message type share a name.
    fn check_field_names(&self) -> (r: bool)
        ensures
            r == field_names_distinct(*self),
    {
        let mut m: usize = 0;
        while m < self.messages.len()
            invariant
                m <= self.messages@.len(),
                forall|mm: int, i: int, j: int|
                    0 <= mm < m && 0 <= i < j < self.messages@[mm].fields@.len() ==> #[trigger] self.messages@[mm].fields@[i].name@
                        != #[trigger] self.messages@[mm].fields@[j].name@,
            decreases self.messages@.len() - m,
        {
            let fs = &self.messages[m].fields;
            let mut i: usize = 0;
            while i < fs.len()
                invariant
                    m < self.messages@.len(),
                    *fs == self.messages@[m as int].fields,
                    i <= fs@.len(),
                    forall|mm: int, a: int, b: int|
                        0 <= mm < m && 0 <= a < b < self.messages@[mm].fields@.len() ==> #[trigger] self.messages@[mm].fields@[a].name@
                            != #[trigger] self.messages@[mm].fields@[b].name@,
                    forall|a: int, b: int| 0 <= a < b < fs@.len() && a < i ==> #[trigger] fs@[a].name@ != #[trigger] fs@[b].name@,
                decreases fs@.len() - i,
            {
                let mut j: usize = i + 1;
                while j < fs.len()
                    invariant
                        m < self.messages@.len(),
                        *fs == self.messages@[m as int].fields,
                        i < fs@.len(),
                        i + 1 <= j <= fs@.len(),
                        forall|b: int| i < b < j ==> fs@[i as int].name@ != #[trigger] fs@[b].name@,
                    decreases fs@.len() - j,
                {
                    if str_eq(&fs[i].name, fs[j].name.as_str()) {
                        assert(self.messages@[m as int].fields@[i as int].name@
                            == self.messages@[m as int].fields@[j as int].name@);
                        return false;
                    }
                    j = j + 1;
                }
                i = i + 1;
            }
            m = m + 1;
        }
        true
    }

    /// Whether no two values of an enum share a name.
    fn check_enum_names(&self) -> (r: bool)
        ensures
            r == enum_names_distinct(*self),
    {
        let mut e: usize = 0;
        while e < self.enums.len()
            invariant
                e <= self.enums@.len(),
                forall|ee: int, i: int, j: int|
                    0 <= ee < e && 0 <= i < j < self.enums@[ee].values@.len() ==> #[trigger] self.enums@[ee].values@[i].name@
                        != #[trigger] self.enums@[ee].values@[j].name@,
            decreases self.enums@.len() - e,
        {
            let vs = &self.enums[e].values;
            let mut i: usize = 0;
            while i < vs.len()
                invariant
                    e < self.enums@.len(),
                    *vs == self.enums@[e as int].values,
                    i <= vs@.len(),
                    forall|ee: int, a: int, b: int|
                        0 <= ee < e && 0 <= a < b < self.enums@[ee].values@.len() ==> #[trigger] self.enums@[ee].values@[a].name@
                            != #[trigger] self.enums@[ee].values@[b].name@,
                    forall|a: int, b: int| 0 <= a < b < vs@.len() && a < i ==> #[trigger] vs@[a].name@ != #[trigger] vs@[b].name@,
                decreases vs@.len() - i,
            {
                let mut j: usize = i + 1;
                while j < vs.len()
                    invariant
                        e < self.enums@.len(),
                        *vs == self.enums@[e as int].values,
                        i < vs@.len(),
                        i + 1 <= j <= vs@.len(),
                        forall|b: int| i < b < j ==> vs@[i as int].name@ != #[trigger] vs@[b].name@,
                    decreases vs@.len() - j,
                {
                    if str_eq(&vs[i].name, vs[j].name.as_str()) {
                        assert(self.enums@[e as int].values@[i as int].name@
                            == self.enums@[e as int].values@[j as int].name@);
                        return false;
                    }
                    j = j + 1;
                }
                i = i + 1;
            }
            e = e + 1;
        }
        true
    }

    /// Whether the schema is well formed.
    pub fn check(&self) -> (r: bool)
        ensures
            r == self.wf(),
    {
        let mut i: usize = 0;
        while i < self.messages.len()
            invariant
                i <= self.messages@.len(),
                forall|k: int| 0 <= k < i ==> self.message_wf(#[trigger] self.messages@[k]),
            decreases self.messages@.len() - i,
        {
            let m = &self.messages[i];
            let mut j: usize = 0;
            while j < m.fields.len()
                invariant
                    i < self.messages@.len(),
                    m == self.messages@[i as int],
                    j <= m.fields@.len(),
                    forall|k: int| 0 <= k < j ==> self.field_wf(#[trigger] m.fields@[k]),
                decreases m.fields@.len() - j,
            {
                if !self.check_field(&m.fields[j]) {
                    assert(!self.message_wf(self.messages@[i as int]));
                    return false;
                }
                j = j + 1;
            }
            if m.is_map_entry && m.fields.len() != 2 {
                assert(!self.message_wf(self.messages@[i as int]));
                return false;
            }
            i = i + 1;
        }
        self.check_field_names() && self.check_enum_names()
    }
}

} // verus!
