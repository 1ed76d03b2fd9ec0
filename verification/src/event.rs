//! Log events and the values they hold.
use vstd::prelude::*;
use crate::text::{chars_of, find_char, index_of, string_from_chars, slice_prefix};

verus! {

/// A value in an event, or in the YAML or JSON tree that a rule or an event is read from.
pub enum FieldValue {
    /// An explicit null.
    Null,
    /// A boolean.
    Bool(bool),
    /// An integer: the parsers give every `i64` and every `u64` as one.
    Int(i128),
    /// Any other number (a float), kept as the text that the parser printed for it.
    Number(String),
    /// A string.
    Text(String),
    /// A sequence of values.
    Sequence(Vec<FieldValue>),
    /// A mapping, as its entries in order.
    Mapping(Vec<(FieldValue, FieldValue)>),
}

/// A log event: named fields, each holding a value.
pub struct Event {
    pub fields: Vec<(String, FieldValue)>,
}

/// The value of the first entry of `e` whose name is `key`.
pub open spec fn field_lookup(e: Seq<(String, FieldValue)>, key: Seq<char>) -> Option<FieldValue>
    decreases e.len(),
{
    if e.len() == 0 {
        None
    } else if e[0].0@ == key {
        Some(e[0].1)
    } else {
        field_lookup(e.skip(1), key)
    }
}

/// The value of the first entry of the mapping `m` whose key is the string `key`.
pub open spec fn map_lookup(m: Seq<(FieldValue, FieldValue)>, key: Seq<char>) -> Option<FieldValue>
    decreases m.len(),
{
    if m.len() == 0 {
        None
    } else if m[0].0 matches FieldValue::Text(k) && k@ == key {
        Some(m[0].1)
    } else {
        map_lookup(m.skip(1), key)
    }
}

/// Resolves the field path `name` inside the mapping `m`: an entry named exactly `name` wins;
/// otherwise `name` is split at its first `.` and the rest is resolved inside the mapping that
/// the part before the dot names.
pub open spec fn map_resolve(m: Seq<(FieldValue, FieldValue)>, name: Seq<char>) -> Option<FieldValue>
    decreases name.len(),
{
    if map_lookup(m, name) is Some {
        map_lookup(m, name)
    } else {
        match index_of(name, '.') {
            Some(k) => match map_lookup(m, name.take(k)) {
                Some(FieldValue::Mapping(inner)) => if 0 <= k < name.len() {
                    map_resolve(inner@, name.skip(k + 1))
                } else {
                    None
                },
                _ => None,
            },
            None => None,
        }
    }
}

/// Resolves the field path `name` in an event: a field named exactly `name` (dots included)
/// takes precedence over a nested field; otherwise the part before the first `.` names a
/// field that holds a mapping, and the rest is resolved inside it.
pub open spec fn event_resolve(e: Seq<(String, FieldValue)>, name: Seq<char>) -> Option<FieldValue> {
    if field_lookup(e, name) is Some {
        field_lookup(e, name)
    } else {
        match index_of(name, '.') {
            Some(k) => match field_lookup(e, name.take(k)) {
                Some(FieldValue::Mapping(inner)) => if 0 <= k < name.len() {
                    map_resolve(inner@, name.skip(k + 1))
                } else {
                    None
                },
                _ => None,
            },
            None => None,
        }
    }
}

/// The first entry of `e` named `key`.
fn lookup_field<'a>(e: &'a Vec<(String, FieldValue)>, key: &String) -> (res: Option<&'a FieldValue>)
    ensures
        match res {
            Some(v) => field_lookup(e@, key@) == Some(*v),
            None => field_lookup(e@, key@) is None,
        },
{
    let mut i: usize = 0;
    assert(e@.skip(0) =~= e@);
    while i < e.len()
        invariant
            0 <= i <= e.len(),
            field_lookup(e@, key@) == field_lookup(e@.skip(i as int), key@),
        decreases e.len() - i,
    {
        let ghost rest = e@.skip(i as int);
        assert(rest[0] == e@[i as int]);
        assert(rest.skip(1) =~= e@.skip(i + 1));
        if e[i].0 == *key {
            return Some(&e[i].1);
        }
        i = i + 1;
    }
    None
}

/// The first entry of the mapping `m` whose key is the string `key`.
pub fn lookup_map<'a>(m: &'a Vec<(FieldValue, FieldValue)>, key: &String) -> (res: Option<&'a FieldValue>)
    ensures
        match res {
            Some(v) => map_lookup(m@, key@) == Some(*v),
            None => map_lookup(m@, key@) is None,
        },
{
    let mut i: usize = 0;
    assert(m@.skip(0) =~= m@);
    while i < m.len()
        invariant
            0 <= i <= m.len(),
            map_lookup(m@, key@) == map_lookup(m@.skip(i as int), key@),
        decreases m.len() - i,
    {
        let ghost rest = m@.skip(i as int);
        assert(rest[0] == m@[i as int]);
        assert(rest.skip(1) =~= m@.skip(i + 1));
        match &m[i].0 {
            FieldValue::Text(k) => {
                if *k == *key {
                    return Some(&m[i].1);
                }
            },
            _ => {},
        }
        i = i + 1;
    }
    None
}

/// The index of the first entry of the mapping `m` whose key is the string `key`.
pub fn find_key(m: &Vec<(FieldValue, FieldValue)>, key: &String) -> (res: Option<usize>)
    ensures
        match res {
            Some(i) => {
                &&& i < m@.len()
                &&& map_lookup(m@, key@) == Some(m@[i as int].1)
                &&& m@[i as int].0 matches FieldValue::Text(k) && k@ == key@
            },
            None => map_lookup(m@, key@) is None,
        },
{
    let mut i: usize = 0;
    assert(m@.skip(0) =~= m@);
    while i < m.len()
        invariant
            0 <= i <= m.len(),
            map_lookup(m@, key@) == map_lookup(m@.skip(i as int), key@),
        decreases m.len() - i,
    {
        let ghost rest = m@.skip(i as int);
        assert(rest[0] == m@[i as int]);
        assert(rest.skip(1) =~= m@.skip(i + 1));
        match &m[i].0 {
            FieldValue::Text(k) => {
                if *k == *key {
                    return Some(i);
                }
            },
            _ => {},
        }
        i = i + 1;
    }
    None
}

/// Resolves the field path `name` inside the mapping `m`.
fn resolve_in_map<'a>(m: &'a Vec<(FieldValue, FieldValue)>, name: &[char]) -> (res: Option<&'a FieldValue>)
    ensures
        match res {
            Some(v) => map_resolve(m@, name@) == Some(*v),
            None => map_resolve(m@, name@) is None,
        },
    decreases name@.len(),
{
    let key = string_from_chars(name);
    match lookup_map(m, &key) {
        Some(v) => Some(v),
        None => match find_char(name, '.') {
            Some(k) => {
                proof {
                    crate::text::lemma_index_of(name@, '.');
                }
                let head = string_from_chars(slice_prefix(name, k));
                match lookup_map(m, &head) {
                    Some(FieldValue::Mapping(inner)) => {
                        assert(k < name.len());
                        let (_a, b) = name.split_at(k + 1);
                        assert(b@ =~= name@.skip(k + 1));
                        resolve_in_map(inner, b)
                    },
                    _ => None,
                }
            },
            None => None,
        },
    }
}

impl Event {
    /// An event with no fields.
    pub fn new() -> (res: Event)
        ensures
            res.fields@.len() == 0,
    {
        Event { fields: Vec::new() }
    }

    /// The value of the field named exactly `key`.
    pub fn get(&self, key: &str) -> (res: Option<&FieldValue>)
        ensures
            match res {
                Some(v) => field_lookup(self.fields@, key@) == Some(*v),
                None => field_lookup(self.fields@, key@) is None,
            },
    {
        let k = key.to_owned();
        lookup_field(&self.fields, &k)
    }

    /// The value that the field path `name` resolves to (see [`event_resolve`]).
    pub fn resolve(&self, name: &str) -> (res: Option<&FieldValue>)
        ensures
            match res {
                Some(v) => event_resolve(self.fields@, name@) == Some(*v),
                None => event_resolve(self.fields@, name@) is None,
            },
    {
        let key = name.to_owned();
        match lookup_field(&self.fields, &key) {
            Some(v) => Some(v),
            None => {
                let cs = chars_of(name);
                match find_char(cs.as_slice(), '.') {
                    Some(k) => {
                        proof {
                            crate::text::lemma_index_of(cs@, '.');
                        }
                        let head = string_from_chars(slice_prefix(cs.as_slice(), k));
                        match lookup_field(&self.fields, &head) {
                            Some(FieldValue::Mapping(inner)) => {
                                let (_a, b) = cs.as_slice().split_at(k + 1);
                                assert(b@ =~= name@.skip(k + 1));
                                resolve_in_map(inner, b)
                            },
                            _ => None,
                        }
                    },
                    None => None,
                }
            },
        }
    }

    /// Sets the field `key` to `value`: an existing field of that name is overwritten in
    /// place, otherwise the field is appended.
    pub fn insert(&mut self, key: &str, value: FieldValue)
        ensures
            field_lookup(final(self).fields@, key@) == Some(value),
            forall|k: Seq<char>| k != key@ ==> field_lookup(final(self).fields@, k)
                == field_lookup(old(self).fields@, k),
    {
        let ghost e0 = self.fields@;
        let key_s = key.to_owned();
        let mut i: usize = 0;
        let n = self.fields.len();
        while i < n
            invariant
                0 <= i <= n,
                n == self.fields@.len(),
                key_s@ == key@,
                self.fields@ == e0,
                e0 == old(self).fields@,
                forall|j: int| 0 <= j < i ==> self.fields@[j].0@ != key@,
            decreases n - i,
        {
            if self.fields[i].0 == key_s {
                proof {
                    lemma_field_lookup_first(e0, key@, i as int);
                }
                let k = key.to_owned();
                let ghost entry = (k, value);
                self.fields.set(i, (k, value));
                proof {
                    lemma_field_lookup_update(e0, i as int, entry);
                    assert(self.fields@ == e0.update(i as int, entry));
                }
                return;
            }
            i = i + 1;
        }
        let k = key.to_owned();
        let ghost entry = (k, value);
        self.fields.push((k, value));
        proof {
            lemma_field_lookup_push(e0, entry);
        }
    }
}

/// When entry `i` is the first one named `key`, a lookup of `key` finds it.
proof fn lemma_field_lookup_first(e: Seq<(String, FieldValue)>, key: Seq<char>, i: int)
    requires
        0 <= i < e.len(),
        e[i].0@ == key,
        forall|j: int| 0 <= j < i ==> e[j].0@ != key,
    ensures
        field_lookup(e, key) == Some(e[i].1),
    decreases i,
{
    if i > 0 {
        lemma_field_lookup_first(e.skip(1), key, i - 1);
    }
}

/// Replacing the first entry named `key` by another entry of that name changes the lookup
/// of `key` and of nothing else.
proof fn lemma_field_lookup_update(e: Seq<(String, FieldValue)>, i: int, entry: (String, FieldValue))
    requires
        0 <= i < e.len(),
        e[i].0@ == entry.0@,
        forall|j: int| 0 <= j < i ==> e[j].0@ != entry.0@,
    ensures
        forall|k: Seq<char>| k != entry.0@ ==> field_lookup(e.update(i, entry), k)
            == field_lookup(e, k),
        field_lookup(e.update(i, entry), entry.0@) == Some(entry.1),
    decreases i,
{
    let u = e.update(i, entry);
    if i == 0 {
        assert(u.skip(1) =~= e.skip(1));
    } else {
        lemma_field_lookup_update(e.skip(1), i - 1, entry);
        assert(u.skip(1) =~= e.skip(1).update(i - 1, entry));
        assert(u[0] == e[0]);
    }
    assert forall|k: Seq<char>| k != entry.0@ implies field_lookup(u, k) == field_lookup(e, k) by {
        assert(u.len() > 0 && e.len() > 0);
        if i > 0 {
            assert(u[0] == e[0]);
            assert(field_lookup(u.skip(1), k) == field_lookup(e.skip(1), k));
        } else {
            assert(u[0].0@ != k);
            assert(e[0].0@ != k);
        }
    }
}

/// Appending an entry whose name occurs nowhere makes the lookup of that name find it and
/// leaves every other lookup as it was.
proof fn lemma_field_lookup_push(e: Seq<(String, FieldValue)>, entry: (String, FieldValue))
    requires
        forall|j: int| 0 <= j < e.len() ==> e[j].0@ != entry.0@,
    ensures
        forall|k: Seq<char>| k != entry.0@ ==> field_lookup(e.push(entry), k) == field_lookup(e, k),
        field_lookup(e.push(entry), entry.0@) == Some(entry.1),
    decreases e.len(),
{
    let u = e.push(entry);
    if e.len() == 0 {
        assert(u.skip(1) =~= Seq::<(String, FieldValue)>::empty());
        assert(u[0] == entry);
    } else {
        lemma_field_lookup_push(e.skip(1), entry);
        assert(u.skip(1) =~= e.skip(1).push(entry));
        assert(u[0] == e[0]);
    }
    assert forall|k: Seq<char>| k != entry.0@ implies field_lookup(u, k) == field_lookup(e, k) by {
        if e.len() > 0 {
            assert(u[0] == e[0]);
            assert(field_lookup(u.skip(1), k) == field_lookup(e.skip(1), k));
        } else {
            assert(u[0].0@ != k);
            assert(field_lookup(u.skip(1), k) is None);
        }
    }
}

} // verus!

verus! {

/// Why an event could not be read.
#[derive(Debug)]
pub enum EventError {
    /// The JSON text could not be parsed; the message is the parser's.
    Json(String),
    /// The value is not a JSON object with string keys.
    NotAnObject,
    /// The value is not a JSON array.
    NotAList,
}

/// The entry has a string key.
pub open spec fn has_text_key(e: (FieldValue, FieldValue)) -> bool {
    e.0 is Text
}

/// The field holds the entry: the same name and the same value.
pub open spec fn field_is_entry(f: (String, FieldValue), e: (FieldValue, FieldValue)) -> bool {
    match e.0 {
        FieldValue::Text(k) => f.0@ == k@ && f.1 == e.1,
        _ => false,
    }
}

/// Whether the tree reads as an event: a mapping with string keys.
pub open spec fn event_tree_ok(v: FieldValue) -> bool {
    match v {
        FieldValue::Mapping(es) => forall|i: int| 0 <= i < es@.len() ==> has_text_key(#[trigger] es@[i]),
        _ => false,
    }
}

/// `e` is what the tree reads as: one field per entry, in order.
pub open spec fn event_reads(e: Event, v: FieldValue) -> bool {
    match v {
        FieldValue::Mapping(es) => e.fields@.len() == es@.len() && forall|i: int| 0 <= i < es@.len()
            ==> field_is_entry(#[trigger] e.fields@[i], es@[i]),
        _ => false,
    }
}

/// Reads an event from a tree (see [`event_reads`]).
#[verifier::loop_isolation(false)]
pub fn event_from_value(v: FieldValue) -> (res: Result<Event, EventError>)
    ensures
        match res {
            Ok(e) => event_reads(e, v),
            Err(EventError::NotAnObject) => !event_tree_ok(v),
            Err(_) => false,
        },
{
    match v {
        FieldValue::Mapping(es) => {
            let ghost es0 = es@;
            let mut fields: Vec<(String, FieldValue)> = Vec::new();
            for e in it: es.into_iter()
                invariant
                    it.seq() == es0,
                    fields@.len() == it.index(),
                    forall|i: int| 0 <= i < it.index() ==> field_is_entry(#[trigger] fields@[i], es0[i]),
            {
                let ghost idx = it.index();
                let (k, x) = e;
                match k {
                    FieldValue::Text(name) => {
                        fields.push((name, x));
                    },
                    _ => {
                        assert(!has_text_key(es0[idx]));
                        return Err(EventError::NotAnObject);
                    },
                }
            }
            Ok(Event { fields })
        },
        _ => Err(EventError::NotAnObject),
    }
}

/// Whether the tree reads as a list of events.
pub open spec fn events_tree_ok(v: FieldValue) -> bool {
    match v {
        FieldValue::Sequence(items) => forall|i: int| 0 <= i < items@.len() ==> event_tree_ok(#[trigger] items@[i]),
        _ => false,
    }
}

/// `es` is what the tree reads as: one event per element, in order.
pub open spec fn events_read(es: Seq<Event>, v: FieldValue) -> bool {
    match v {
        FieldValue::Sequence(items) => es.len() == items@.len() && forall|i: int| 0 <= i < es.len()
            ==> event_reads(#[trigger] es[i], items@[i]),
        _ => false,
    }
}

/// Reads a list of events from a tree (see [`events_read`]).
#[verifier::loop_isolation(false)]
pub fn events_from_value(v: FieldValue) -> (res: Result<Vec<Event>, EventError>)
    ensures
        match res {
            Ok(es) => events_read(es@, v),
            Err(EventError::NotAList) => !(v is Sequence),
            Err(EventError::NotAnObject) => v is Sequence && !events_tree_ok(v),
            Err(_) => false,
        },
{
    match v {
        FieldValue::Sequence(items) => {
            let ghost items0 = items@;
            let mut out: Vec<Event> = Vec::new();
            for item in it: items.into_iter()
                invariant
                    it.seq() == items0,
                    out@.len() == it.index(),
                    forall|i: int| 0 <= i < it.index() ==> event_reads(#[trigger] out@[i], items0[i]),
            {
                let ghost idx = it.index();
                match event_from_value(item) {
                    Ok(e) => {
                        out.push(e);
                    },
                    Err(err) => {
                        assert(!event_tree_ok(items0[idx]));
                        return Err(err);
                    },
                }
            }
            Ok(out)
        },
        _ => Err(EventError::NotAList),
    }
}

} // verus!

verus! {

/// The string that the last pair named `k` holds, if a pair is named `k`.
pub open spec fn last_text(ps: Seq<(&str, &str)>, k: Seq<char>) -> Option<Seq<char>>
    decreases ps.len(),
{
    if ps.len() == 0 {
        None
    } else if ps.last().0@ == k {
        Some(ps.last().1@)
    } else {
        last_text(ps.drop_last(), k)
    }
}

/// The value of the last pair named `k`, if a pair is named `k`.
pub open spec fn last_value<V>(ps: Seq<(&str, V)>, k: Seq<char>) -> Option<V>
    decreases ps.len(),
{
    if ps.len() == 0 {
        None
    } else if ps.last().0@ == k {
        Some(ps.last().1)
    } else {
        last_value(ps.drop_last(), k)
    }
}

impl<'a, const N: usize> From<[(&'a str, &'a str); N]> for Event {
    /// An event with the string fields of the pairs, inserted in order (a later pair
    /// overwrites an earlier one of the same name).
    fn from(pairs: [(&'a str, &'a str); N]) -> (res: Event)
        ensures
            forall|k: Seq<char>| #![trigger field_lookup(res.fields@, k)] match last_text(pairs@, k) {
                Some(t) => field_lookup(res.fields@, k) matches Some(FieldValue::Text(x)) && x@ == t,
                None => field_lookup(res.fields@, k) is None,
            },
    {
        let mut e = Event::new();
        let mut i: usize = 0;
        while i < N
            invariant
                0 <= i <= N,
                N == pairs@.len(),
                forall|k: Seq<char>| #![trigger field_lookup(e.fields@, k)] match last_text(pairs@.take(i as int), k) {
                    Some(t) => field_lookup(e.fields@, k) matches Some(FieldValue::Text(x)) && x@ == t,
                    None => field_lookup(e.fields@, k) is None,
                },
            decreases N - i,
        {
            let (name, text) = pairs[i];
            e.insert(name, FieldValue::Text(text.to_owned()));
            assert(pairs@.take(i + 1).drop_last() =~= pairs@.take(i as int));
            assert(pairs@.take(i + 1).last() == pairs@[i as int]);
            i = i + 1;
        }
        assert(pairs@.take(N as int) =~= pairs@);
        e
    }
}

impl<'a, const N: usize> vstd::std_specs::convert::FromSpecImpl<[(&'a str, &'a str); N]> for Event {
    open spec fn obeys_from_spec() -> bool {
        false
    }

    open spec fn from_spec(v: [(&'a str, &'a str); N]) -> Event {
        vstd::pervasive::arbitrary()
    }
}

impl<'a, const N: usize> From<[(&'a str, bool); N]> for Event {
    /// An event with the boolean fields of the pairs, inserted in order.
    fn from(pairs: [(&'a str, bool); N]) -> (res: Event)
        ensures
            forall|k: Seq<char>| #![trigger field_lookup(res.fields@, k)] match last_value(pairs@, k) {
                Some(b) => field_lookup(res.fields@, k) == Some(FieldValue::Bool(b)),
                None => field_lookup(res.fields@, k) is None,
            },
    {
        let mut e = Event::new();
        let mut i: usize = 0;
        while i < N
            invariant
                0 <= i <= N,
                N == pairs@.len(),
                forall|k: Seq<char>| #![trigger field_lookup(e.fields@, k)] match last_value(pairs@.take(i as int), k) {
                    Some(b) => field_lookup(e.fields@, k) == Some(FieldValue::Bool(b)),
                    None => field_lookup(e.fields@, k) is None,
                },
            decreases N - i,
        {
            let (name, b) = pairs[i];
            e.insert(name, FieldValue::Bool(b));
            assert(pairs@.take(i + 1).drop_last() =~= pairs@.take(i as int));
            assert(pairs@.take(i + 1).last() == pairs@[i as int]);
            i = i + 1;
        }
        assert(pairs@.take(N as int) =~= pairs@);
        e
    }
}

impl<'a, const N: usize> vstd::std_specs::convert::FromSpecImpl<[(&'a str, bool); N]> for Event {
    open spec fn obeys_from_spec() -> bool {
        false
    }

    open spec fn from_spec(v: [(&'a str, bool); N]) -> Event {
        vstd::pervasive::arbitrary()
    }
}

impl<'a, const N: usize> From<[(&'a str, i64); N]> for Event {
    /// An event with the integer fields of the pairs, inserted in order.
    fn from(pairs: [(&'a str, i64); N]) -> (res: Event)
        ensures
            forall|k: Seq<char>| #![trigger field_lookup(res.fields@, k)] match last_value(pairs@, k) {
                Some(n) => field_lookup(res.fields@, k) == Some(FieldValue::Int(n as i128)),
                None => field_lookup(res.fields@, k) is None,
            },
    {
        let mut e = Event::new();
        let mut i: usize = 0;
        while i < N
            invariant
                0 <= i <= N,
                N == pairs@.len(),
                forall|k: Seq<char>| #![trigger field_lookup(e.fields@, k)] match last_value(pairs@.take(i as int), k) {
                    Some(n) => field_lookup(e.fields@, k) == Some(FieldValue::Int(n as i128)),
                    None => field_lookup(e.fields@, k) is None,
                },
            decreases N - i,
        {
            let (name, n) = pairs[i];
            e.insert(name, FieldValue::Int(n as i128));
            assert(pairs@.take(i + 1).drop_last() =~= pairs@.take(i as int));
            assert(pairs@.take(i + 1).last() == pairs@[i as int]);
            i = i + 1;
        }
        assert(pairs@.take(N as int) =~= pairs@);
        e
    }
}

impl<'a, const N: usize> vstd::std_specs::convert::FromSpecImpl<[(&'a str, i64); N]> for Event {
    open spec fn obeys_from_spec() -> bool {
        false
    }

    open spec fn from_spec(v: [(&'a str, i64); N]) -> Event {
        vstd::pervasive::arbitrary()
    }
}

} // verus!
