//! How the correlation engine groups the events that base rules matched and counts them.
use vstd::prelude::*;
use crate::text::{decimal_text, int_text};
use crate::correlation::{FieldAliases, CorrelationSection, TimestampedEvent};
use crate::event::{Event, FieldValue, event_resolve};
use crate::rule::Rule;

verus! {

/// The optional string holds `s`.
pub open spec fn opt_is(o: Option<String>, s: Seq<char>) -> bool {
    match o {
        Some(x) => x@ == s,
        None => false,
    }
}

/// A correlation rule refers to a base rule by its name, its id or its title.
pub open spec fn refers_to(reference: Seq<char>, base: Rule) -> bool {
    opt_is(base.name, reference) || opt_is(base.id, reference) || base.title@ == reference
}

/// `k` is the first of the references that refers to `base`.
pub open spec fn is_first_ref(refs: Seq<String>, base: Rule, k: int) -> bool {
    &&& 0 <= k < refs.len()
    &&& refers_to(refs[k]@, base)
    &&& forall|j: int| 0 <= j < k ==> !refers_to(#[trigger] refs[j]@, base)
}

/// The index of the first reference to `base` among `refs`.
pub open spec fn ref_index(refs: Seq<String>, base: Rule) -> Option<int> {
    if exists|k: int| is_first_ref(refs, base, k) {
        Some(choose|k: int| is_first_ref(refs, base, k))
    } else {
        None
    }
}

fn opt_equals(o: &Option<String>, s: &String) -> (res: bool)
    ensures
        res == opt_is(*o, s@),
{
    match o {
        Some(x) => *x == *s,
        None => false,
    }
}

/// The index of the first reference to `base` among `refs` (see [`ref_index`]).
pub fn find_ref(refs: &Vec<String>, base: &Rule) -> (res: Option<usize>)
    ensures
        match res {
            Some(k) => ref_index(refs@, *base) == Some(k as int),
            None => ref_index(refs@, *base) is None,
        },
{
    let mut i: usize = 0;
    while i < refs.len()
        invariant
            0 <= i <= refs@.len(),
            forall|j: int| 0 <= j < i ==> !refers_to(#[trigger] refs@[j]@, *base),
        decreases refs@.len() - i,
    {
        let r = &refs[i];
        if opt_equals(&base.name, r) || opt_equals(&base.id, r) || base.title == *r {
            assert(is_first_ref(refs@, *base, i as int));
            assert forall|k: int| is_first_ref(refs@, *base, k) implies k == i by {
                if k < i {
                    assert(!refers_to(refs@[k]@, *base));
                }
                if i < k {
                    assert(!refers_to(refs@[i as int]@, *base));
                }
            }
            return Some(i);
        }
        i = i + 1;
    }
    None
}

/// The field-to-rule table of the alias named `alias`.
pub open spec fn alias_entry(a: Seq<(String, Vec<(String, String)>)>, alias: Seq<char>) -> Option<Seq<(String, String)>>
    decreases a.len(),
{
    if a.len() == 0 {
        None
    } else if a[0].0@ == alias {
        Some(a[0].1@)
    } else {
        alias_entry(a.skip(1), alias)
    }
}

/// The field named for the rule `reference` in an alias table.
pub open spec fn alias_target(m: Seq<(String, String)>, reference: Seq<char>) -> Option<Seq<char>>
    decreases m.len(),
{
    if m.len() == 0 {
        None
    } else if m[0].0@ == reference {
        Some(m[0].1@)
    } else {
        alias_target(m.skip(1), reference)
    }
}

/// The field that the group field or alias `g` stands for in events of the rule `reference`:
/// the field that the alias names for that rule, or `g` itself.
pub open spec fn resolved_field(aliases: Option<FieldAliases>, g: Seq<char>, reference: Seq<char>) -> Seq<char> {
    match aliases {
        Some(fa) => match alias_entry(fa.aliases@, g) {
            Some(m) => match alias_target(m, reference) {
                Some(f) => f,
                None => g,
            },
            None => g,
        },
        None => g,
    }
}

/// The field that `g` stands for in events of the rule `reference` (see [`resolved_field`]).
#[verifier::loop_isolation(false)]
pub fn resolve_alias<'a>(aliases: &'a Option<FieldAliases>, g: &'a String, reference: &String) -> (res: &'a String)
    ensures
        res@ == resolved_field(*aliases, g@, reference@),
{
    match aliases {
        Some(fa) => {
            let a = &fa.aliases;
            let mut i: usize = 0;
            assert(a@.skip(0) =~= a@);
            while i < a.len()
                invariant
                    0 <= i <= a@.len(),
                    alias_entry(a@, g@) == alias_entry(a@.skip(i as int), g@),
                decreases a@.len() - i,
            {
                assert(a@.skip(i as int)[0] == a@[i as int]);
                assert(a@.skip(i as int).skip(1) =~= a@.skip(i + 1));
                if a[i].0 == *g {
                    let m = &a[i].1;
                    assert(alias_entry(a@, g@) == Some(m@));
                    let mut j: usize = 0;
                    assert(m@.skip(0) =~= m@);
                    while j < m.len()
                        invariant
                            0 <= j <= m@.len(),
                            alias_target(m@, reference@) == alias_target(m@.skip(j as int), reference@),
                        decreases m@.len() - j,
                    {
                        assert(m@.skip(j as int)[0] == m@[j as int]);
                        assert(m@.skip(j as int).skip(1) =~= m@.skip(j + 1));
                        if m[j].0 == *reference {
                            return &m[j].1;
                        }
                        j = j + 1;
                    }
                    return g;
                }
                i = i + 1;
            }
            g
        },
        None => g,
    }
}

/// The text by which a field value groups events: strings and numbers as written, integers
/// in decimal, booleans as `true` or `false`; anything else, or an absent field, is empty.
pub open spec fn field_text(v: Option<FieldValue>) -> Seq<char> {
    match v {
        Some(FieldValue::Text(s)) => s@,
        Some(FieldValue::Number(s)) => s@,
        Some(FieldValue::Int(i)) => int_text(i as int),
        Some(FieldValue::Bool(b)) => if b { "true"@ } else { "false"@ },
        _ => Seq::empty(),
    }
}

/// The text of a field value (see [`field_text`]).
pub fn value_text(v: Option<&FieldValue>) -> (res: String)
    ensures
        res@ == field_text(crate::detection::opt_value(v)),
{
    match v {
        Some(FieldValue::Text(s)) => s.clone(),
        Some(FieldValue::Number(s)) => s.clone(),
        Some(FieldValue::Int(i)) => decimal_text(*i),
        Some(FieldValue::Bool(b)) => if *b { "true".to_owned() } else { "false".to_owned() },
        _ => String::new(),
    }
}

} // verus!

verus! {

/// An event that a correlation rule takes into account, as the rule sees it.
pub struct Obs {
    /// The values of the `group-by` fields.
    pub key: Seq<Seq<char>>,
    /// When it happened.
    pub time: int,
    /// Which of the rule's referenced rules matched it.
    pub rule_idx: int,
    /// The value of the counted field (`value_count`), if the event has that field.
    pub value: Option<Seq<char>>,
}

/// The values of the `group-by` fields of an event of the rule `reference`.
pub open spec fn group_key(sec: CorrelationSection, event: Seq<(String, FieldValue)>, reference: Seq<char>) -> Seq<Seq<char>> {
    match sec.group_by {
        Some(gb) => Seq::new(
            gb@.len(),
            |j: int| field_text(event_resolve(event, resolved_field(sec.aliases, gb@[j]@, reference))),
        ),
        None => Seq::empty(),
    }
}

/// The value of the field that `value_count` counts, if the event has it.
pub open spec fn counted_value(sec: CorrelationSection, event: Seq<(String, FieldValue)>, reference: Seq<char>) -> Option<Seq<char>> {
    match sec.condition {
        Some(c) => match c.field {
            Some(f) => {
                let v = event_resolve(event, resolved_field(sec.aliases, f@, reference));
                if v is Some { Some(field_text(v)) } else { None }
            },
            None => None,
        },
        None => None,
    }
}

/// How the correlation section sees the event: `None` when the event's rule is not one of
/// those it refers to.
pub open spec fn observation(sec: CorrelationSection, ev: TimestampedEvent) -> Option<Obs> {
    match ref_index(sec.rules@, *ev.rule) {
        Some(k) => {
            let reference = sec.rules@[k]@;
            Some(Obs {
                key: group_key(sec, ev.event.fields@, reference),
                time: ev.timestamp as int,
                rule_idx: k,
                value: counted_value(sec, ev.event.fields@, reference),
            })
        },
        None => None,
    }
}

/// The events that the correlation section takes into account, in order.
pub open spec fn observations(sec: CorrelationSection, evs: Seq<TimestampedEvent>) -> Seq<Obs>
    decreases evs.len(),
{
    if evs.len() == 0 {
        Seq::empty()
    } else {
        let sub = observations(sec, evs.drop_last());
        match observation(sec, evs.last()) {
            Some(o) => sub.push(o),
            None => sub,
        }
    }
}

/// The executable form of an [`Obs`].
pub struct Observation {
    pub key: Vec<String>,
    pub time: i128,
    pub rule_idx: usize,
    pub value: Option<String>,
}

/// The views of a list of strings.
pub open spec fn string_views(v: Seq<String>) -> Seq<Seq<char>> {
    Seq::new(v.len(), |i: int| v[i]@)
}

/// The abstract form of an observation.
pub open spec fn obs_view(o: Observation) -> Obs {
    Obs {
        key: string_views(o.key@),
        time: o.time as int,
        rule_idx: o.rule_idx as int,
        value: match o.value {
            Some(v) => Some(v@),
            None => None,
        },
    }
}

/// The abstract forms of a list of observations.
pub open spec fn obs_views(v: Seq<Observation>) -> Seq<Obs> {
    Seq::new(v.len(), |i: int| obs_view(v[i]))
}

/// How the correlation section sees the event (see [`observation`]).
pub fn observe(sec: &CorrelationSection, ev: &TimestampedEvent) -> (res: Option<Observation>)
    ensures
        match res {
            Some(o) => observation(*sec, *ev) == Some(obs_view(o)),
            None => observation(*sec, *ev) is None,
        },
{
    match find_ref(&sec.rules, ev.rule) {
        Some(k) => {
            let reference = &sec.rules[k];
            let mut key: Vec<String> = Vec::new();
            match &sec.group_by {
                Some(gb) => {
                    let mut j: usize = 0;
                    while j < gb.len()
                        invariant
                            0 <= j <= gb@.len(),
                            sec.group_by == Some(*gb),
                            key@.len() == j,
                            forall|q: int| 0 <= q < j ==> (#[trigger] key@[q])@ == field_text(
                                event_resolve(ev.event.fields@, resolved_field(sec.aliases, gb@[q]@, reference@)),
                            ),
                        decreases gb@.len() - j,
                    {
                        let f = resolve_alias(&sec.aliases, &gb[j], reference);
                        let t = value_text(ev.event.resolve(f.as_str()));
                        key.push(t);
                        j = j + 1;
                    }
                },
                None => {},
            }
            assert(string_views(key@) =~= group_key(*sec, ev.event.fields@, reference@));
            let value = match &sec.condition {
                Some(c) => match &c.field {
                    Some(f) => {
                        let rf = resolve_alias(&sec.aliases, f, reference);
                        match ev.event.resolve(rf.as_str()) {
                            Some(v) => Some(value_text(Some(v))),
                            None => None,
                        }
                    },
                    None => None,
                },
                None => None,
            };
            Some(Observation { key, time: ev.timestamp, rule_idx: k, value })
        },
        None => None,
    }
}

/// The events that the correlation section takes into account (see [`observations`]).
pub fn observe_all(sec: &CorrelationSection, evs: &[TimestampedEvent]) -> (res: Vec<Observation>)
    ensures
        obs_views(res@) == observations(*sec, evs@),
{
    let mut res: Vec<Observation> = Vec::new();
    let mut i: usize = 0;
    assert(evs@.take(0) =~= Seq::<TimestampedEvent>::empty());
    assert(obs_views(res@) =~= observations(*sec, evs@.take(0)));
    while i < evs.len()
        invariant
            0 <= i <= evs@.len(),
            obs_views(res@) == observations(*sec, evs@.take(i as int)),
        decreases evs@.len() - i,
    {
        assert(evs@.take(i + 1).drop_last() =~= evs@.take(i as int));
        assert(evs@.take(i + 1).last() == evs@[i as int]);
        let ghost before = res@;
        match observe(sec, &evs[i]) {
            Some(o) => {
                res.push(o);
                assert(obs_views(res@) =~= obs_views(before).push(obs_view(res@[res@.len() - 1])));
            },
            None => {},
        }
        i = i + 1;
    }
    assert(evs@.take(evs@.len() as int) =~= evs@);
    res
}

} // verus!

verus! {

/// How many of `p(0)`, ..., `p(n - 1)` hold.
pub open spec fn count_upto(n: int, p: spec_fn(int) -> bool) -> nat
    decreases n,
{
    if n <= 0 {
        0
    } else {
        count_upto(n - 1, p) + if p(n - 1) { 1nat } else { 0nat }
    }
}

/// A count never exceeds the number of candidates.
pub proof fn lemma_count_upto_le(n: int, p: spec_fn(int) -> bool)
    requires
        n >= 0,
    ensures
        count_upto(n, p) <= n,
    decreases n,
{
    if n > 0 {
        lemma_count_upto_le(n - 1, p);
    }
}

/// The earliest time of the observations with the key `key` among the first `n`.
pub open spec fn key_min_time(obs: Seq<Obs>, key: Seq<Seq<char>>, n: int) -> Option<int>
    decreases n,
{
    if n <= 0 {
        None
    } else {
        let m = key_min_time(obs, key, n - 1);
        if obs[n - 1].key == key {
            match m {
                Some(t) => Some(if obs[n - 1].time < t { obs[n - 1].time } else { t }),
                None => Some(obs[n - 1].time),
            }
        } else {
            m
        }
    }
}

/// When the first time window of the group `key` starts: at its earliest event.
pub open spec fn key_start(obs: Seq<Obs>, key: Seq<Seq<char>>) -> int {
    match key_min_time(obs, key, obs.len() as int) {
        Some(t) => t,
        None => 0,
    }
}

/// Which time window of its group the observation `i` falls in: the windows are `span`
/// seconds long, back to back from the group's earliest event.
pub open spec fn bucket_of(obs: Seq<Obs>, span: int, i: int) -> int {
    (obs[i].time - key_start(obs, obs[i].key)) / span
}

/// Observations `i` and `j` share their group and time window.
pub open spec fn same_slot(obs: Seq<Obs>, span: int, i: int, j: int) -> bool {
    obs[i].key == obs[j].key && bucket_of(obs, span, i) == bucket_of(obs, span, j)
}

/// Observation `i` is the first of its group and time window.
pub open spec fn slot_first(obs: Seq<Obs>, span: int, i: int) -> bool {
    forall|j: int| 0 <= j < i ==> !same_slot(obs, span, j, i)
}

/// The number of observations in the group and time window of observation `i`.
pub open spec fn slot_size(obs: Seq<Obs>, span: int, i: int) -> nat {
    count_upto(obs.len() as int, |j: int| same_slot(obs, span, j, i))
}

/// Observation `j` is in the slot of `i` and brings a value that no earlier observation of
/// that slot has.
pub open spec fn new_value_in_slot(obs: Seq<Obs>, span: int, i: int, j: int) -> bool {
    &&& same_slot(obs, span, j, i)
    &&& obs[j].value is Some
    &&& forall|k: int| 0 <= k < j ==> !(same_slot(obs, span, k, i) && obs[k].value == obs[j].value)
}

/// The number of distinct values in the group and time window of observation `i`.
pub open spec fn slot_values(obs: Seq<Obs>, span: int, i: int) -> nat {
    count_upto(obs.len() as int, |j: int| new_value_in_slot(obs, span, i, j))
}

/// A group (and time window) with the count that a correlation rule compares with its
/// condition.
pub struct Outcome {
    pub key: Seq<Seq<char>>,
    pub count: nat,
}

/// For `event_count` (`distinct` false) and `value_count` (`distinct` true): one outcome per
/// group and time window, in the order in which they first occur among the first `n`
/// observations.
pub open spec fn counting_outcomes(obs: Seq<Obs>, span: int, distinct: bool, n: int) -> Seq<Outcome>
    decreases n,
{
    if n <= 0 {
        Seq::empty()
    } else {
        let sub = counting_outcomes(obs, span, distinct, n - 1);
        if slot_first(obs, span, n - 1) {
            sub.push(Outcome {
                key: obs[n - 1].key,
                count: if distinct { slot_values(obs, span, n - 1) } else { slot_size(obs, span, n - 1) },
            })
        } else {
            sub
        }
    }
}

/// Whether two keys are equal.
pub fn keys_equal(a: &Vec<String>, b: &Vec<String>) -> (res: bool)
    ensures
        res == (string_views(a@) == string_views(b@)),
{
    if a.len() != b.len() {
        assert(string_views(a@).len() != string_views(b@).len());
        return false;
    }
    let mut i: usize = 0;
    while i < a.len()
        invariant
            0 <= i <= a@.len(),
            a@.len() == b@.len(),
            forall|j: int| 0 <= j < i ==> a@[j]@ == b@[j]@,
        decreases a@.len() - i,
    {
        if a[i] != b[i] {
            assert(string_views(a@)[i as int] != string_views(b@)[i as int]);
            return false;
        }
        i = i + 1;
    }
    assert(string_views(a@) =~= string_views(b@));
    true
}

/// When the first time window of the group of observation `i` starts.
fn group_start(obs: &Vec<Observation>, i: usize) -> (res: i128)
    requires
        i < obs@.len(),
    ensures
        res as int == key_start(obs_views(obs@), obs_views(obs@)[i as int].key),
        res <= obs@[i as int].time,
{
    let ghost ov = obs_views(obs@);
    let ghost key = ov[i as int].key;
    let mut best: i128 = obs[i].time;
    let mut found = false;
    let mut j: usize = 0;
    while j < obs.len()
        invariant
            0 <= j <= obs@.len(),
            i < obs@.len(),
            ov == obs_views(obs@),
            key == ov[i as int].key,
            found ==> key_min_time(ov, key, j as int) == Some(best as int),
            !found ==> key_min_time(ov, key, j as int) is None,
            j > i ==> best <= obs@[i as int].time,
            found || j <= i,
        decreases obs@.len() - j,
    {
        if keys_equal(&obs[j].key, &obs[i].key) {
            if !found || obs[j].time < best {
                best = obs[j].time;
            }
            found = true;
        }
        j = j + 1;
    }
    best
}

/// Which time window of its group observation `i` falls in (see [`bucket_of`]).
fn bucket(obs: &Vec<Observation>, span: u64, i: usize) -> (res: u128)
    requires
        i < obs@.len(),
        span > 0,
    ensures
        res as int == bucket_of(obs_views(obs@), span as int, i as int),
{
    let start = group_start(obs, i);
    let t = obs[i].time;
    let d: u128 = if start >= 0 || t < 0 {
        (t - start) as u128
    } else {
        (t as u128) + ((-(start + 1)) as u128) + 1
    };
    d / (span as u128)
}

} // verus!

verus! {

/// A copy of a list of strings.
pub fn clone_strings(v: &Vec<String>) -> (res: Vec<String>)
    ensures
        string_views(res@) == string_views(v@),
{
    let mut res: Vec<String> = Vec::new();
    let mut i: usize = 0;
    while i < v.len()
        invariant
            0 <= i <= v@.len(),
            res@.len() == i,
            forall|j: int| 0 <= j < i ==> (#[trigger] res@[j])@ == v@[j]@,
        decreases v@.len() - i,
    {
        res.push(v[i].clone());
        i = i + 1;
    }
    assert(string_views(res@) =~= string_views(v@));
    res
}

/// The time window of each observation within its group.
fn all_buckets(obs: &Vec<Observation>, span: u64) -> (res: Vec<u128>)
    requires
        span > 0,
    ensures
        res@.len() == obs@.len(),
        forall|i: int| 0 <= i < obs@.len() ==> #[trigger] res@[i] as int == bucket_of(obs_views(obs@), span as int, i),
{
    let mut res: Vec<u128> = Vec::new();
    let mut i: usize = 0;
    while i < obs.len()
        invariant
            0 <= i <= obs@.len(),
            span > 0,
            res@.len() == i,
            forall|j: int| 0 <= j < i ==> #[trigger] res@[j] as int == bucket_of(obs_views(obs@), span as int, j),
        decreases obs@.len() - i,
    {
        res.push(bucket(obs, span, i));
        i = i + 1;
    }
    res
}

/// The buckets match the observations.
pub open spec fn buckets_fit(obs: Seq<Observation>, span: int, b: Seq<u128>) -> bool {
    b.len() == obs.len() && forall|i: int| 0 <= i < obs.len() ==> #[trigger] b[i] as int == bucket_of(obs_views(obs), span, i)
}

fn in_same_slot(obs: &Vec<Observation>, b: &Vec<u128>, span: Ghost<int>, i: usize, j: usize) -> (res: bool)
    requires
        buckets_fit(obs@, span@, b@),
        i < obs@.len(),
        j < obs@.len(),
    ensures
        res == same_slot(obs_views(obs@), span@, i as int, j as int),
{
    keys_equal(&obs[i].key, &obs[j].key) && b[i] == b[j]
}

fn opt_text_equal(a: &Option<String>, b: &Option<String>) -> (res: bool)
    ensures
        res == (match *a { Some(x) => Some(x@), None => None::<Seq<char>> } == match *b {
            Some(x) => Some(x@),
            None => None::<Seq<char>>,
        }),
{
    match (a, b) {
        (Some(x), Some(y)) => *x == *y,
        (None, None) => true,
        _ => false,
    }
}

/// Whether observation `i` is the first of its slot.
fn first_in_slot(obs: &Vec<Observation>, b: &Vec<u128>, span: Ghost<int>, i: usize) -> (res: bool)
    requires
        buckets_fit(obs@, span@, b@),
        i < obs@.len(),
    ensures
        res == slot_first(obs_views(obs@), span@, i as int),
{
    let mut j: usize = 0;
    while j < i
        invariant
            0 <= j <= i,
            i < obs@.len(),
            buckets_fit(obs@, span@, b@),
            forall|q: int| 0 <= q < j ==> !same_slot(obs_views(obs@), span@, q, i as int),
        decreases i - j,
    {
        if in_same_slot(obs, b, span, j, i) {
            return false;
        }
        j = j + 1;
    }
    true
}

/// The size of the slot of observation `i`, or the number of distinct values in it.
fn slot_count(obs: &Vec<Observation>, b: &Vec<u128>, span: Ghost<int>, i: usize, distinct: bool) -> (res: u64)
    requires
        buckets_fit(obs@, span@, b@),
        i < obs@.len(),
    ensures
        res as int == if distinct {
            slot_values(obs_views(obs@), span@, i as int)
        } else {
            slot_size(obs_views(obs@), span@, i as int)
        },
{
    let ghost ov = obs_views(obs@);
    let ghost p_size = |q: int| same_slot(ov, span@, q, i as int);
    let ghost p_new = |q: int| new_value_in_slot(ov, span@, i as int, q);
    let mut count: u64 = 0;
    let mut j: usize = 0;
    while j < obs.len()
        invariant
            0 <= j <= obs@.len(),
            i < obs@.len(),
            ov == obs_views(obs@),
            buckets_fit(obs@, span@, b@),
            p_size == (|q: int| same_slot(ov, span@, q, i as int)),
            p_new == (|q: int| new_value_in_slot(ov, span@, i as int, q)),
            count as int == if distinct { count_upto(j as int, p_new) } else { count_upto(j as int, p_size) },
        decreases obs@.len() - j,
    {
        proof {
            lemma_count_upto_le(j as int, p_new);
            lemma_count_upto_le(j as int, p_size);
        }
        if in_same_slot(obs, b, span, j, i) {
            if !distinct {
                count = count + 1;
            } else if obs[j].value.is_some() {
                let mut fresh = true;
                let mut k: usize = 0;
                while k < j
                    invariant
                        0 <= k <= j,
                        j < obs@.len(),
                        i < obs@.len(),
                        ov == obs_views(obs@),
                        buckets_fit(obs@, span@, b@),
                        fresh <==> forall|q: int| 0 <= q < k ==> !(same_slot(ov, span@, q, i as int) && ov[q].value == ov[j as int].value),
                    decreases j - k,
                {
                    if in_same_slot(obs, b, span, k, i) && opt_text_equal(&obs[k].value, &obs[j].value) {
                        fresh = false;
                    }
                    k = k + 1;
                }
                if fresh {
                    count = count + 1;
                }
            }
        }
        j = j + 1;
    }
    count
}

/// The outcomes of `event_count` (`distinct` false) or `value_count` (see
/// [`counting_outcomes`]).
pub fn counting(obs: &Vec<Observation>, span: u64, distinct: bool) -> (res: Vec<(Vec<String>, u64)>)
    requires
        span > 0,
    ensures
        outcome_views(res@) == counting_outcomes(obs_views(obs@), span as int, distinct, obs@.len() as int),
{
    let b = all_buckets(obs, span);
    let ghost sp = span as int;
    let mut res: Vec<(Vec<String>, u64)> = Vec::new();
    let mut i: usize = 0;
    assert(outcome_views(res@) =~= counting_outcomes(obs_views(obs@), sp, distinct, 0));
    while i < obs.len()
        invariant
            0 <= i <= obs@.len(),
            sp == span as int,
            buckets_fit(obs@, sp, b@),
            outcome_views(res@) == counting_outcomes(obs_views(obs@), sp, distinct, i as int),
        decreases obs@.len() - i,
    {
        if first_in_slot(obs, &b, Ghost(sp), i) {
            let c = slot_count(obs, &b, Ghost(sp), i, distinct);
            let k = clone_strings(&obs[i].key);
            let ghost before = res@;
            res.push((k, c));
            assert(outcome_views(res@) =~= outcome_views(before).push(outcome_view(res@[res@.len() - 1])));
        }
        i = i + 1;
    }
    res
}

/// The abstract form of an outcome.
pub open spec fn outcome_view(o: (Vec<String>, u64)) -> Outcome {
    Outcome { key: string_views(o.0@), count: o.1 as nat }
}

/// The abstract forms of a list of outcomes.
pub open spec fn outcome_views(v: Seq<(Vec<String>, u64)>) -> Seq<Outcome> {
    Seq::new(v.len(), |i: int| outcome_view(v[i]))
}

} // verus!

verus! {

/// Observation `j` is in the slot of `i` and comes from a referenced rule that no earlier
/// observation of that slot comes from.
pub open spec fn new_rule_in_slot(obs: Seq<Obs>, span: int, i: int, j: int) -> bool {
    &&& same_slot(obs, span, j, i)
    &&& forall|k: int| 0 <= k < j ==> !(same_slot(obs, span, k, i) && obs[k].rule_idx == obs[j].rule_idx)
}

/// For `temporal`: the number of distinct referenced rules that fire in the group and time
/// window of observation `i`.
pub open spec fn slot_rules(obs: Seq<Obs>, span: int, i: int) -> nat {
    count_upto(obs.len() as int, |j: int| new_rule_in_slot(obs, span, i, j))
}

/// The earliest time, strictly after `after` where that is given, at which the referenced
/// rule `r` fires in the slot of observation `i`, among the first `n` observations.
pub open spec fn earliest_in_slot(obs: Seq<Obs>, span: int, i: int, r: int, after: Option<int>, n: int) -> Option<int>
    decreases n,
{
    if n <= 0 {
        None
    } else {
        let m = earliest_in_slot(obs, span, i, r, after, n - 1);
        let o = obs[n - 1];
        if same_slot(obs, span, n - 1, i) && o.rule_idx == r && (after matches Some(a) ==> a < o.time) {
            match m {
                Some(t) => Some(if o.time < t { o.time } else { t }),
                None => Some(o.time),
            }
        } else {
            m
        }
    }
}

/// How many of the referenced rules `r`, `r + 1`, ... fire one after another in the slot of
/// observation `i`, each as early as it can after the previous one.
pub open spec fn slot_progress(obs: Seq<Obs>, span: int, i: int, r: int, after: Option<int>, nrules: int) -> nat
    decreases nrules - r,
{
    if r >= nrules || r < 0 {
        0
    } else {
        match earliest_in_slot(obs, span, i, r, after, obs.len() as int) {
            Some(t) => 1 + slot_progress(obs, span, i, r + 1, Some(t), nrules),
            None => 0,
        }
    }
}

/// For `temporal_ordered`: how many of the referenced rules, from the first and in their
/// order, fire one after another in the group and time window of observation `i`.
pub open spec fn slot_chain(obs: Seq<Obs>, span: int, i: int, nrules: int) -> nat {
    slot_progress(obs, span, i, 0, None, nrules)
}

/// For `temporal` (`ordered` false) and `temporal_ordered`: one outcome per group and time
/// window, in the order in which they first occur among the first `n` observations.
pub open spec fn temporal_outcomes(obs: Seq<Obs>, span: int, ordered: bool, nrules: int, n: int) -> Seq<Outcome>
    decreases n,
{
    if n <= 0 {
        Seq::empty()
    } else {
        let sub = temporal_outcomes(obs, span, ordered, nrules, n - 1);
        if slot_first(obs, span, n - 1) {
            sub.push(Outcome {
                key: obs[n - 1].key,
                count: if ordered { slot_chain(obs, span, n - 1, nrules) } else { slot_rules(obs, span, n - 1) },
            })
        } else {
            sub
        }
    }
}

/// The number of distinct referenced rules in the slot of observation `i` (see
/// [`slot_rules`]).
fn slot_rule_count(obs: &Vec<Observation>, b: &Vec<u128>, span: Ghost<int>, i: usize) -> (res: u64)
    requires
        buckets_fit(obs@, span@, b@),
        i < obs@.len(),
    ensures
        res as int == slot_rules(obs_views(obs@), span@, i as int),
{
    let ghost ov = obs_views(obs@);
    let ghost p = |q: int| new_rule_in_slot(ov, span@, i as int, q);
    let mut count: u64 = 0;
    let mut j: usize = 0;
    while j < obs.len()
        invariant
            0 <= j <= obs@.len(),
            i < obs@.len(),
            ov == obs_views(obs@),
            buckets_fit(obs@, span@, b@),
            p == (|q: int| new_rule_in_slot(ov, span@, i as int, q)),
            count as int == count_upto(j as int, p),
        decreases obs@.len() - j,
    {
        proof {
            lemma_count_upto_le(j as int, p);
        }
        if in_same_slot(obs, b, span, j, i) {
            let mut fresh = true;
            let mut k: usize = 0;
            while k < j
                invariant
                    0 <= k <= j,
                    j < obs@.len(),
                    i < obs@.len(),
                    ov == obs_views(obs@),
                    buckets_fit(obs@, span@, b@),
                    fresh <==> forall|q: int| 0 <= q < k ==> !(same_slot(ov, span@, q, i as int) && ov[q].rule_idx == ov[j as int].rule_idx),
                decreases j - k,
            {
                if in_same_slot(obs, b, span, k, i) && obs[k].rule_idx == obs[j].rule_idx {
                    fresh = false;
                }
                k = k + 1;
            }
            if fresh {
                count = count + 1;
            }
        }
        j = j + 1;
    }
    count
}

/// The earliest time after `after` at which rule `r` fires in the slot of observation `i`
/// (see [`earliest_in_slot`]).
fn earliest_slot(obs: &Vec<Observation>, b: &Vec<u128>, span: Ghost<int>, i: usize, r: usize, after: Option<i128>) -> (res: Option<i128>)
    requires
        buckets_fit(obs@, span@, b@),
        i < obs@.len(),
    ensures
        ({
            let ga = match after { Some(a) => Some(a as int), None => None::<int> };
            match res {
                Some(t) => earliest_in_slot(obs_views(obs@), span@, i as int, r as int, ga, obs@.len() as int) == Some(t as int),
                None => earliest_in_slot(obs_views(obs@), span@, i as int, r as int, ga, obs@.len() as int) is None,
            }
        }),
{
    let ghost ov = obs_views(obs@);
    let ghost ga = match after { Some(a) => Some(a as int), None => None::<int> };
    let mut best: Option<i128> = None;
    let mut j: usize = 0;
    while j < obs.len()
        invariant
            0 <= j <= obs@.len(),
            i < obs@.len(),
            ov == obs_views(obs@),
            buckets_fit(obs@, span@, b@),
            ga == match after { Some(a) => Some(a as int), None => None::<int> },
            match best {
                Some(t) => earliest_in_slot(ov, span@, i as int, r as int, ga, j as int) == Some(t as int),
                None => earliest_in_slot(ov, span@, i as int, r as int, ga, j as int) is None,
            },
        decreases obs@.len() - j,
    {
        let later = match after {
            Some(a) => a < obs[j].time,
            None => true,
        };
        if in_same_slot(obs, b, span, j, i) && obs[j].rule_idx == r && later {
            let t = obs[j].time;
            best = match best {
                Some(x) => Some(if t < x { t } else { x }),
                None => Some(t),
            };
        }
        j = j + 1;
    }
    best
}

/// The ordered chain of the slot of observation `i` (see [`slot_chain`]).
fn chain_in_slot(obs: &Vec<Observation>, b: &Vec<u128>, span: Ghost<int>, i: usize, nrules: usize) -> (res: u64)
    requires
        buckets_fit(obs@, span@, b@),
        i < obs@.len(),
    ensures
        res as int == slot_chain(obs_views(obs@), span@, i as int, nrules as int),
{
    let ghost ov = obs_views(obs@);
    let mut count: u64 = 0;
    let mut after: Option<i128> = None;
    let mut r: usize = 0;
    let mut done = false;
    while r < nrules && !done
        invariant
            i < obs@.len(),
            ov == obs_views(obs@),
            buckets_fit(obs@, span@, b@),
            count as int == r,
            r <= nrules,
            slot_chain(ov, span@, i as int, nrules as int) == count + if done { 0 } else {
                slot_progress(ov, span@, i as int, r as int, match after { Some(a) => Some(a as int), None => None::<int> }, nrules as int)
            },
        decreases nrules - r, if done { 0int } else { 1int },
    {
        match earliest_slot(obs, b, span, i, r, after) {
            Some(t) => {
                count = count + 1;
                after = Some(t);
                r = r + 1;
            },
            None => {
                done = true;
            },
        }
    }
    count
}

/// The outcomes of `temporal` (`ordered` false) or `temporal_ordered` (see
/// [`temporal_outcomes`]).
pub fn temporal(obs: &Vec<Observation>, span: u64, ordered: bool, nrules: usize) -> (res: Vec<(Vec<String>, u64)>)
    requires
        span > 0,
    ensures
        outcome_views(res@) == temporal_outcomes(obs_views(obs@), span as int, ordered, nrules as int, obs@.len() as int),
{
    let b = all_buckets(obs, span);
    let ghost sp = span as int;
    let mut res: Vec<(Vec<String>, u64)> = Vec::new();
    let mut i: usize = 0;
    assert(outcome_views(res@) =~= temporal_outcomes(obs_views(obs@), sp, ordered, nrules as int, 0));
    while i < obs.len()
        invariant
            0 <= i <= obs@.len(),
            sp == span as int,
            buckets_fit(obs@, sp, b@),
            outcome_views(res@) == temporal_outcomes(obs_views(obs@), sp, ordered, nrules as int, i as int),
        decreases obs@.len() - i,
    {
        if first_in_slot(obs, &b, Ghost(sp), i) {
            let c = if ordered { chain_in_slot(obs, &b, Ghost(sp), i, nrules) } else { slot_rule_count(obs, &b, Ghost(sp), i) };
            let k = clone_strings(&obs[i].key);
            let ghost before = res@;
            res.push((k, c));
            assert(outcome_views(res@) =~= outcome_views(before).push(outcome_view(res@[res@.len() - 1])));
        }
        i = i + 1;
    }
    res
}

} // verus!
