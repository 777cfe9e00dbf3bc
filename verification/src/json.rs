//! A JSON document as the library holds it (the data attached to a
//! connection, the payload of a message or a response), with the object
//! operations that the connection registry performs on it.
use vstd::prelude::*;

verus! {

/// A JSON value. Numbers are kept as their JSON text, so that a value read
/// in and written out again is unchanged.
#[derive(Debug, PartialEq)]
pub enum JsonValue {
    Null,
    Bool(bool),
    Number(String),
    String(String),
    Array(Vec<JsonValue>),
    /// The members of an object, in order.
    Object(Vec<(String, JsonValue)>),
}

/// The mathematical model of a [`JsonValue`].
#[verifier::ext_equal]
pub enum JsonData {
    Null,
    Bool(bool),
    Number(Seq<char>),
    String(Seq<char>),
    Array(Seq<JsonData>),
    Object(Seq<(Seq<char>, JsonData)>),
}

pub open spec fn json_view(v: JsonValue) -> JsonData
    decreases v,
{
    match v {
        JsonValue::Null => JsonData::Null,
        JsonValue::Bool(b) => JsonData::Bool(b),
        JsonValue::Number(n) => JsonData::Number(n@),
        JsonValue::String(s) => JsonData::String(s@),
        JsonValue::Array(items) => {
            proof {
                assert(decreases_to!(v => items@));
            }
            JsonData::Array(
                Seq::new(
                    items@.len(),
                    |i: int|
                        if 0 <= i < items@.len() {
                            json_view(items@[i])
                        } else {
                            JsonData::Null
                        },
                ),
            )
        },
        JsonValue::Object(entries) => {
            proof {
                assert(decreases_to!(v => entries@));
            }
            JsonData::Object(
                Seq::new(
                    entries@.len(),
                    |i: int|
                        if 0 <= i < entries@.len() {
                            (entries@[i].0@, json_view(entries@[i].1))
                        } else {
                            (Seq::empty(), JsonData::Null)
                        },
                ),
            )
        },
    }
}

impl View for JsonValue {
    type V = JsonData;

    open spec fn view(&self) -> JsonData {
        json_view(*self)
    }
}

/// The value of the first member named `key`, if any.
pub open spec fn members_lookup(m: Seq<(Seq<char>, JsonData)>, key: Seq<char>) -> Option<JsonData>
    decreases m.len(),
{
    if m.len() == 0 {
        None
    } else if m[0].0 == key {
        Some(m[0].1)
    } else {
        members_lookup(m.drop_first(), key)
    }
}

/// `m` with the first member named `key` given `value`, or with a member
/// `key: value` added at the end when there is none.
pub open spec fn members_insert(m: Seq<(Seq<char>, JsonData)>, key: Seq<char>, value: JsonData) -> Seq<
    (Seq<char>, JsonData),
>
    decreases m.len(),
{
    if m.len() == 0 {
        seq![(key, value)]
    } else if m[0].0 == key {
        m.update(0, (key, value))
    } else {
        seq![m[0]] + members_insert(m.drop_first(), key, value)
    }
}

/// `m` without the members named `key`.
pub open spec fn members_remove(m: Seq<(Seq<char>, JsonData)>, key: Seq<char>) -> Seq<
    (Seq<char>, JsonData),
>
    decreases m.len(),
{
    if m.len() == 0 {
        m
    } else if m.last().0 == key {
        members_remove(m.drop_last(), key)
    } else {
        members_remove(m.drop_last(), key).push(m.last())
    }
}

/// No two members have the same name.
pub open spec fn members_distinct(m: Seq<(Seq<char>, JsonData)>) -> bool {
    forall|i: int, j: int| 0 <= i < j < m.len() ==> (#[trigger] m[i]).0 != (#[trigger] m[j]).0
}

impl JsonData {
    /// Every object in the value, at any depth, has members of distinct
    /// names, as a JSON object (a map from names to values) has.
    pub open spec fn well_formed(self) -> bool
        decreases self,
    {
        match self {
            JsonData::Array(items) => forall|i: int|
                0 <= i < items.len() ==> (#[trigger] items[i]).well_formed(),
            JsonData::Object(m) => members_distinct(m) && forall|i: int|
                0 <= i < m.len() ==> (#[trigger] m[i]).1.well_formed(),
            _ => true,
        }
    }

    pub open spec fn is_object(self) -> bool {
        self is Object
    }

    /// The member `key` of an object; `None` for any other value.
    pub open spec fn field(self, key: Seq<char>) -> Option<JsonData> {
        match self {
            JsonData::Object(m) => members_lookup(m, key),
            _ => None,
        }
    }

    /// An object with its member `key` set to `value`; any other value unchanged.
    pub open spec fn with_field(self, key: Seq<char>, value: JsonData) -> JsonData {
        match self {
            JsonData::Object(m) => JsonData::Object(members_insert(m, key, value)),
            _ => self,
        }
    }

    /// An object without its member `key`; any other value unchanged.
    pub open spec fn without_field(self, key: Seq<char>) -> JsonData {
        match self {
            JsonData::Object(m) => JsonData::Object(members_remove(m, key)),
            _ => self,
        }
    }

    /// The text of a JSON string.
    pub open spec fn as_text(self) -> Option<Seq<char>> {
        match self {
            JsonData::String(s) => Some(s),
            _ => None,
        }
    }

    /// An array whose items are all strings, as the list of their texts
    /// (what deserializing into `Vec<String>` accepts).
    pub open spec fn as_text_list(self) -> Option<Seq<Seq<char>>> {
        match self {
            JsonData::Array(items) => if forall|i: int|
                0 <= i < items.len() ==> (#[trigger] items[i]) is String {
                Some(items.map_values(|x: JsonData| x->String_0))
            } else {
                None
            },
            _ => None,
        }
    }
}

proof fn lemma_lookup_skip(m: Seq<(Seq<char>, JsonData)>, key: Seq<char>, i: int)
    requires
        0 <= i <= m.len(),
        forall|j: int| 0 <= j < i ==> (#[trigger] m[j]).0 != key,
    ensures
        members_lookup(m, key) == members_lookup(m.skip(i), key),
    decreases i,
{
    if i == 0 {
        assert(m.skip(0) =~= m);
    } else {
        lemma_lookup_skip(m.drop_first(), key, i - 1);
        assert(m.drop_first().skip(i - 1) =~= m.skip(i));
    }
}

proof fn lemma_insert_at(m: Seq<(Seq<char>, JsonData)>, key: Seq<char>, value: JsonData, i: int)
    requires
        0 <= i <= m.len(),
        forall|j: int| 0 <= j < i ==> (#[trigger] m[j]).0 != key,
        i < m.len() ==> m[i].0 == key,
    ensures
        members_insert(m, key, value) == if i < m.len() {
            m.update(i, (key, value))
        } else {
            m.push((key, value))
        },
    decreases i,
{
    if i == 0 {
        if m.len() == 0 {
            assert(seq![(key, value)] =~= m.push((key, value)));
        }
    } else {
        lemma_insert_at(m.drop_first(), key, value, i - 1);
        if i < m.len() {
            assert(seq![m[0]] + m.drop_first().update(i - 1, (key, value)) =~= m.update(
                i,
                (key, value),
            ));
        } else {
            assert(seq![m[0]] + m.drop_first().push((key, value)) =~= m.push((key, value)));
        }
    }
}

/// Inserting then reading gives back what was inserted; the other members
/// are unchanged.
pub proof fn lemma_members_insert(
    m: Seq<(Seq<char>, JsonData)>,
    key: Seq<char>,
    value: JsonData,
    other: Seq<char>,
)
    ensures
        members_lookup(members_insert(m, key, value), key) == Some(value),
        other != key ==> members_lookup(members_insert(m, key, value), other) == members_lookup(
            m,
            other,
        ),
    decreases m.len(),
{
    if m.len() > 0 && m[0].0 != key {
        lemma_members_insert(m.drop_first(), key, value, other);
        let r = members_insert(m, key, value);
        assert(r.drop_first() =~= members_insert(m.drop_first(), key, value));
    } else if m.len() > 0 {
        let r = members_insert(m, key, value);
        assert(r.drop_first() =~= m.drop_first());
    } else {
        let r = members_insert(m, key, value);
        assert(r.drop_first() =~= Seq::<(Seq<char>, JsonData)>::empty());
        assert(members_lookup(r.drop_first(), other) is None);
    }
}

/// After removing a member, it is gone; the other members are unchanged.
pub proof fn lemma_members_remove(m: Seq<(Seq<char>, JsonData)>, key: Seq<char>, other: Seq<char>)
    ensures
        members_lookup(members_remove(m, key), key) is None,
        other != key ==> members_lookup(members_remove(m, key), other) == members_lookup(m, other),
    decreases m.len(),
{
    if m.len() > 0 {
        lemma_members_remove(m.drop_last(), key, other);
        lemma_lookup_push(members_remove(m.drop_last(), key), m.last(), key);
        lemma_lookup_push(members_remove(m.drop_last(), key), m.last(), other);
        assert(m.drop_last().push(m.last()) =~= m);
        lemma_lookup_push(m.drop_last(), m.last(), other);
    }
}

proof fn lemma_members_remove_keeps(m: Seq<(Seq<char>, JsonData)>, key: Seq<char>)
    ensures
        forall|x: (Seq<char>, JsonData)| #[trigger] members_remove(m, key).contains(x) ==> m.contains(x),
        members_distinct(m) ==> members_distinct(members_remove(m, key)),
    decreases m.len(),
{
    if m.len() > 0 {
        let d = m.drop_last();
        lemma_members_remove_keeps(d, key);
        let r = members_remove(d, key);
        assert forall|x: (Seq<char>, JsonData)| #[trigger] members_remove(m, key).contains(x) implies m.contains(x) by {
            if r.contains(x) {
                let j = choose|j: int| 0 <= j < d.len() && d[j] == x;
                assert(m[j] == x);
            } else {
                assert(x == m.last());
                assert(m[m.len() - 1] == x);
            }
        }
        if members_distinct(m) {
            assert(members_distinct(d)) by {
                assert forall|i: int, j: int| 0 <= i < j < d.len() implies (#[trigger] d[i]).0 != (#[trigger] d[j]).0 by {
                    assert(m[i] == d[i] && m[j] == d[j]);
                }
            }
            if m.last().0 != key {
                let t = r.push(m.last());
                assert forall|i: int, j: int| 0 <= i < j < t.len() implies (#[trigger] t[i]).0 != (#[trigger] t[j]).0 by {
                    if j == t.len() - 1 {
                        assert(r.contains(t[i]));
                        let a = choose|a: int| 0 <= a < d.len() && d[a] == t[i];
                        assert(m[a] == d[a]);
                        assert(m[m.len() - 1] == m.last());
                    } else {
                        assert(t[i] == r[i] && t[j] == r[j]);
                    }
                }
            }
        }
    }
}

proof fn lemma_lookup_push(m: Seq<(Seq<char>, JsonData)>, x: (Seq<char>, JsonData), key: Seq<char>)
    ensures
        members_lookup(m.push(x), key) == match members_lookup(m, key) {
            Some(v) => Some(v),
            None => if x.0 == key {
                Some(x.1)
            } else {
                None
            },
        },
    decreases m.len(),
{
    if m.len() > 0 {
        lemma_lookup_push(m.drop_first(), x, key);
        assert(m.push(x).drop_first() =~= m.drop_first().push(x));
    } else {
        assert(m.push(x).drop_first() =~= Seq::<(Seq<char>, JsonData)>::empty());
        assert(members_lookup(m.push(x).drop_first(), key) is None);
    }
}

impl JsonValue {
    /// An empty object (`json!({})`).
    pub fn empty_object() -> (r: JsonValue)
        ensures
            r@ == JsonData::Object(seq![]),
            r@.well_formed(),
    {
        let r = JsonValue::Object(Vec::new());
        assert(r@->Object_0 =~= seq![]);
        r
    }

    /// A copy of this value.
    pub fn duplicate(&self) -> (r: JsonValue)
        ensures
            r@ == self@,
        decreases self,
    {
        match self {
            JsonValue::Null => JsonValue::Null,
            JsonValue::Bool(b) => JsonValue::Bool(*b),
            JsonValue::Number(n) => JsonValue::Number(n.clone()),
            JsonValue::String(s) => JsonValue::String(s.clone()),
            JsonValue::Array(items) => {
                let mut out: Vec<JsonValue> = Vec::new();
                let mut i: usize = 0;
                assert(decreases_to!(*self => items@));
                while i < items.len()
                    invariant
                        decreases_to!(*self => items@),
                        i <= items@.len(),
                        out@.len() == i,
                        forall|j: int| 0 <= j < i ==> (#[trigger] out@[j])@ == items@[j]@,
                    decreases items@.len() - i,
                {
                    let c = items[i].duplicate();
                    out.push(c);
                    i = i + 1;
                }
                let r = JsonValue::Array(out);
                assert(r@->Array_0 =~= self@->Array_0);
                r
            },
            JsonValue::Object(entries) => {
                let mut out: Vec<(String, JsonValue)> = Vec::new();
                let mut i: usize = 0;
                assert(decreases_to!(*self => entries@));
                while i < entries.len()
                    invariant
                        decreases_to!(*self => entries@),
                        i <= entries@.len(),
                        out@.len() == i,
                        forall|j: int|
                            0 <= j < i ==> (#[trigger] out@[j]).0@ == entries@[j].0@ && out@[j].1@
                                == entries@[j].1@,
                    decreases entries@.len() - i,
                {
                    let k = entries[i].0.clone();
                    let c = entries[i].1.duplicate();
                    out.push((k, c));
                    i = i + 1;
                }
                let r = JsonValue::Object(out);
                assert(r@->Object_0 =~= self@->Object_0);
                r
            },
        }
    }

    fn position(entries: &Vec<(String, JsonValue)>, key: &String) -> (r: Option<usize>)
        ensures
            match r {
                Some(i) => i < entries@.len() && entries@[i as int].0@ == key@ && forall|j: int|
                    0 <= j < i ==> (#[trigger] entries@[j]).0@ != key@,
                None => forall|j: int| 0 <= j < entries@.len() ==> (#[trigger] entries@[j]).0@ != key@,
            },
    {
        let mut i: usize = 0;
        while i < entries.len()
            invariant
                i <= entries@.len(),
                forall|j: int| 0 <= j < i ==> (#[trigger] entries@[j]).0@ != key@,
            decreases entries@.len() - i,
        {
            if entries[i].0 == *key {
                return Some(i);
            }
            i = i + 1;
        }
        None
    }

    /// The member `key` of an object (`Value::get`); `None` for any other value.
    pub fn get(&self, key: &str) -> (r: Option<&JsonValue>)
        ensures
            match r {
                Some(v) => self@.field(key@) == Some(v@),
                None => self@.field(key@) is None,
            },
    {
        match self {
            JsonValue::Object(entries) => {
                let k = String::from_str(key);
                let ghost m = self@->Object_0;
                assert forall|j: int| 0 <= j < entries@.len() implies (#[trigger] m[j]).0
                    == entries@[j].0@ && m[j].1 == entries@[j].1@ by {}
                match Self::position(entries, &k) {
                    Some(i) => {
                        proof {
                            lemma_lookup_skip(m, key@, i as int);
                        }
                        Some(&entries[i].1)
                    },
                    None => {
                        proof {
                            lemma_lookup_skip(m, key@, m.len() as int);
                        }
                        None
                    },
                }
            },
            _ => None,
        }
    }

    /// The text of a JSON string (`Value::as_str`).
    pub fn as_str(&self) -> (r: Option<&String>)
        ensures
            match r {
                Some(s) => self@.as_text() == Some(s@),
                None => self@.as_text() is None,
            },
    {
        match self {
            JsonValue::String(s) => Some(s),
            _ => None,
        }
    }

    /// Sets the member `key` of an object to `value` (`Map::insert`). Returns
    /// false, and changes nothing, when this value is not an object.
    pub fn insert_field(&mut self, key: String, value: JsonValue) -> (r: bool)
        ensures
            r == old(self)@.is_object(),
            final(self)@ == old(self)@.with_field(key@, value@),
            old(self)@.well_formed() && value@.well_formed() ==> final(self)@.well_formed(),
    {
        match self {
            JsonValue::Object(entries) => {
                let ghost m = old(self)@->Object_0;
                assert forall|j: int| 0 <= j < entries@.len() implies (#[trigger] m[j]).0
                    == entries@[j].0@ && m[j].1 == entries@[j].1@ by {}
                let ghost kv = key@;
                let ghost vv = value@;
                match Self::position(entries, &key) {
                    Some(i) => {
                        proof {
                            lemma_insert_at(m, kv, vv, i as int);
                            let t = m.update(i as int, (kv, vv));
                            if members_distinct(m) {
                                assert forall|a: int, b: int| 0 <= a < b < t.len() implies (#[trigger] t[a]).0 != (#[trigger] t[b]).0 by {
                                    assert(m[a].0 != m[b].0);
                                }
                            }
                            if old(self)@.well_formed() && vv.well_formed() {
                                assert forall|a: int| 0 <= a < t.len() implies (#[trigger] t[a]).1.well_formed() by {
                                    if a != i {
                                        assert(t[a] == m[a]);
                                    }
                                }
                            }
                        }
                        entries.set(i, (key, value));
                    },
                    None => {
                        proof {
                            lemma_insert_at(m, kv, vv, m.len() as int);
                            let t = m.push((kv, vv));
                            if members_distinct(m) {
                                assert forall|a: int, b: int| 0 <= a < b < t.len() implies (#[trigger] t[a]).0 != (#[trigger] t[b]).0 by {
                                    if b == m.len() {
                                        assert(t[a] == m[a]);
                                    } else {
                                        assert(m[a].0 != m[b].0);
                                    }
                                }
                            }
                            if old(self)@.well_formed() && vv.well_formed() {
                                assert forall|a: int| 0 <= a < t.len() implies (#[trigger] t[a]).1.well_formed() by {
                                    if a < m.len() {
                                        assert(t[a] == m[a]);
                                    }
                                }
                            }
                        }
                        entries.push((key, value));
                    },
                }
                assert(self@->Object_0 =~= members_insert(m, kv, vv));
                true
            },
            _ => false,
        }
    }

    /// Removes the member `key` of an object (`Map::remove`). Returns false,
    /// and changes nothing, when this value is not an object.
    pub fn remove_field(&mut self, key: &str) -> (r: bool)
        ensures
            r == old(self)@.is_object(),
            final(self)@ == old(self)@.without_field(key@),
            old(self)@.well_formed() ==> final(self)@.well_formed(),
    {
        match self {
            JsonValue::Object(entries) => {
                let ghost m = old(self)@->Object_0;
                let k = String::from_str(key);
                let mut kept: Vec<(String, JsonValue)> = Vec::new();
                let ghost mut kept_view: Seq<(Seq<char>, JsonData)> = seq![];
                let n = entries.len();
                let mut rest: Vec<(String, JsonValue)> = Vec::new();
                std::mem::swap(&mut rest, entries);
                let ghost all = rest@;
                assert(all.len() == m.len());
                assert forall|j: int| 0 <= j < all.len() implies (#[trigger] m[j]).0 == all[j].0@
                    && m[j].1 == all[j].1@ by {}
                assert(rest@ =~= all.skip(0));
                let mut i: usize = 0;
                while i < n
                    invariant
                        n == all.len(),
                        n == m.len(),
                        i <= n,
                        rest@ == all.skip(i as int),
                        forall|j: int|
                            0 <= j < m.len() ==> (#[trigger] m[j]).0 == all[j].0@ && m[j].1
                                == all[j].1@,
                        kept@.len() == kept_view.len(),
                        forall|j: int|
                            0 <= j < kept@.len() ==> (#[trigger] kept@[j]).0@ == kept_view[j].0
                                && kept@[j].1@ == kept_view[j].1,
                        kept_view == members_remove(m.take(i as int), key@),
                        k@ == key@,
                    decreases n - i,
                {
                    let e = rest.remove(0);
                    assert(rest@ =~= all.skip(i as int + 1));
                    proof {
                        assert(m.take(i as int + 1).drop_last() =~= m.take(i as int));
                    }
                    if e.0 == k {
                    } else {
                        proof {
                            kept_view = kept_view.push((e.0@, e.1@));
                        }
                        kept.push(e);
                    }
                    i = i + 1;
                }
                assert(m.take(n as int) =~= m);
                *entries = kept;
                assert(self@->Object_0 =~= members_remove(m, key@));
                proof {
                    lemma_members_remove_keeps(m, key@);
                    let t = members_remove(m, key@);
                    if old(self)@.well_formed() {
                        assert forall|a: int| 0 <= a < t.len() implies (#[trigger] t[a]).1.well_formed() by {
                            assert(t.contains(t[a]));
                            let b = choose|b: int| 0 <= b < m.len() && m[b] == t[a];
                        }
                    }
                }
                true
            },
            _ => false,
        }
    }

    /// The texts of an array of strings (`serde_json::from_value::<Vec<String>>`);
    /// `None` for any other value.
    pub fn to_text_list(&self) -> (r: Option<Vec<String>>)
        ensures
            match r {
                Some(v) => self@.as_text_list() == Some(v@.map_values(|x: String| x@)),
                None => self@.as_text_list() is None,
            },
    {
        match self {
            JsonValue::Array(items) => {
                let ghost d = self@->Array_0;
                let mut out: Vec<String> = Vec::new();
                let mut i: usize = 0;
                while i < items.len()
                    invariant
                        i <= items@.len(),
                        d == self@->Array_0,
                        self@ is Array,
                        d.len() == items@.len(),
                        forall|j: int| 0 <= j < d.len() ==> (#[trigger] d[j]) == items@[j]@,
                        out@.len() == i,
                        forall|j: int|
                            0 <= j < i ==> (#[trigger] d[j]) is String && d[j]->String_0
                                == out@[j]@,
                    decreases items@.len() - i,
                {
                    match &items[i] {
                        JsonValue::String(s) => {
                            out.push(s.clone());
                        },
                        _ => {
                            assert(!(d[i as int] is String));
                            return None;
                        },
                    }
                    i = i + 1;
                }
                assert(d.map_values(|x: JsonData| x->String_0) =~= out@.map_values(
                    |x: String| x@,
                ));
                Some(out)
            },
            _ => None,
        }
    }
}

} // verus!
