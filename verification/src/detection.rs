//! Field conditions and selections of a Sigma rule, and how they match an event.
use vstd::prelude::*;
use crate::backends::{
    cidr_contains, cidr_membership, lowercase, regex_is_match, regex_search, to_lowercase,
};
use crate::event::{event_resolve, Event, FieldValue};
use crate::encoding::{encoded_patterns, patterns_of};
use crate::text::chars_of;
use crate::wildcard::{compile_glob, glob_match, glob_matches, glob_tokens, GlobToken};

verus! {

/// How a field condition compares the event's value with each of its values.
#[derive(PartialEq, Eq, Structural, Clone, Copy)]
pub enum MatchKind {
    /// The whole value matches the pattern (wildcards allowed).
    Equals,
    /// The pattern matches somewhere in the value (`contains`).
    Contains,
    /// The value starts with the pattern (`startswith`).
    StartsWith,
    /// The value ends with the pattern (`endswith`).
    EndsWith,
    /// The regular expression matches somewhere in the value (`re`).
    Regex,
    /// The value is an IP address inside the network (`cidr`).
    Cidr,
    /// The value is an integer greater than the condition's (`gt`).
    Gt,
    /// The value is an integer greater than or equal to the condition's (`gte`).
    Gte,
    /// The value is an integer less than the condition's (`lt`).
    Lt,
    /// The value is an integer less than or equal to the condition's (`lte`).
    Lte,
    /// The field is present, or absent, as the boolean value says (`exists`).
    Exists,
    /// The value equals that of the field whose name is the condition's value (`fieldref`).
    FieldRef,
}

/// The bytes that a value is encoded into before base64 encoding.
#[derive(PartialEq, Eq, Structural, Clone, Copy)]
pub enum TextEncoding {
    /// UTF-8, without a modifier.
    Utf8,
    /// Little-endian UTF-16 (`utf16le`, `wide`).
    Utf16Le,
    /// Big-endian UTF-16 (`utf16be`).
    Utf16Be,
    /// Little-endian UTF-16 after a byte order mark (`utf16`).
    Utf16,
}

/// Whether, and how, a value is base64-encoded before it is searched for.
#[derive(PartialEq, Eq, Structural, Clone, Copy)]
pub enum Base64Mode {
    /// The value is used as it is.
    Off,
    /// The base64 encoding of the value (`base64`).
    Plain,
    /// The three encodings of the value at each offset within a longer base64 text
    /// (`base64offset`).
    Offset,
}

/// The modifiers of a field condition, as written after the field name (`Image|endswith`).
#[derive(PartialEq, Eq, Structural, Clone, Copy)]
pub struct Modifiers {
    pub kind: MatchKind,
    /// Every value must match, rather than one of them (`all`).
    pub all: bool,
    /// Strings are compared case-sensitively (`cased`).
    pub cased: bool,
    /// The outcome of the whole comparison is negated (`neq`).
    pub neq: bool,
    /// A `-` or `/` in a pattern stands for any dash character (`windash`).
    pub windash: bool,
    /// The regular expression ignores case (`re|i`).
    pub re_case_insensitive: bool,
    /// `^` and `$` match at line ends (`re|m`).
    pub re_multi_line: bool,
    /// `.` matches a newline too (`re|s`).
    pub re_dot_all: bool,
    /// The bytes of a value before base64 encoding.
    pub encoding: TextEncoding,
    /// Whether the value is base64-encoded.
    pub base64: Base64Mode,
}

/// A condition on one field of an event: `field|modifiers: values`.
pub struct FieldRule {
    pub field: String,
    pub modifiers: Modifiers,
    pub values: Vec<FieldValue>,
}

/// A named part of a rule's detection section.
pub enum Selection {
    /// A list of keywords; one of them must match the whole of some string field.
    Keywords(Vec<FieldValue>),
    /// A list of groups of field conditions; the selection holds when, in one group, every
    /// field condition holds.
    Fields(Vec<Vec<FieldRule>>),
}

/// The tokens for a string pattern under a match kind: `contains`, `startswith` and
/// `endswith` add a `*` where the pattern leaves the value open.
pub open spec fn anchor_tokens(kind: MatchKind, t: Seq<GlobToken>) -> Seq<GlobToken> {
    match kind {
        MatchKind::Contains => seq![GlobToken::AnyRun] + t + seq![GlobToken::AnyRun],
        MatchKind::StartsWith => t + seq![GlobToken::AnyRun],
        MatchKind::EndsWith => seq![GlobToken::AnyRun] + t,
        _ => t,
    }
}

/// Whether the string pattern `p` matches the string `v` under the modifiers `m`: unless
/// `cased`, both are lowercased first.
pub open spec fn text_matches(m: Modifiers, p: Seq<char>, v: Seq<char>) -> bool {
    let pp = if m.cased { p } else { lowercase(p) };
    let vv = if m.cased { v } else { lowercase(v) };
    glob_match(anchor_tokens(m.kind, glob_tokens(pp, m.windash)), vv)
}

/// Two scalar values are the same: same variant, same content. Lists and mappings are never
/// the same as anything.
pub open spec fn same_scalar(a: FieldValue, b: FieldValue) -> bool {
    match (a, b) {
        (FieldValue::Null, FieldValue::Null) => true,
        (FieldValue::Bool(x), FieldValue::Bool(y)) => x == y,
        (FieldValue::Int(x), FieldValue::Int(y)) => x == y,
        (FieldValue::Number(x), FieldValue::Number(y)) => x@ == y@,
        (FieldValue::Text(x), FieldValue::Text(y)) => x@ == y@,
        _ => false,
    }
}

/// Whether one value `rv` of a field condition accepts the event value `ev` (`None` when the
/// field is absent), before `neq` is applied. Types are compared strictly: a string never
/// matches an integer.
pub open spec fn value_accepts(
    m: Modifiers,
    rv: FieldValue,
    ev: Option<FieldValue>,
    event: Seq<(String, FieldValue)>,
) -> bool {
    match m.kind {
        MatchKind::Exists => match rv {
            FieldValue::Bool(b) => (ev is Some) == b,
            _ => false,
        },
        MatchKind::FieldRef => match (rv, ev) {
            (FieldValue::Text(other), Some(a)) => match event_resolve(event, other@) {
                Some(b) => same_scalar(a, b),
                None => false,
            },
            _ => false,
        },
        MatchKind::Gt => match (rv, ev) {
            (FieldValue::Int(x), Some(FieldValue::Int(y))) => y > x,
            _ => false,
        },
        MatchKind::Gte => match (rv, ev) {
            (FieldValue::Int(x), Some(FieldValue::Int(y))) => y >= x,
            _ => false,
        },
        MatchKind::Lt => match (rv, ev) {
            (FieldValue::Int(x), Some(FieldValue::Int(y))) => y < x,
            _ => false,
        },
        MatchKind::Lte => match (rv, ev) {
            (FieldValue::Int(x), Some(FieldValue::Int(y))) => y <= x,
            _ => false,
        },
        MatchKind::Regex => match (rv, ev) {
            (FieldValue::Text(p), Some(FieldValue::Text(v))) => regex_search(
                p@,
                m.re_case_insensitive,
                m.re_multi_line,
                m.re_dot_all,
                v@,
            ) == Some(true),
            _ => false,
        },
        MatchKind::Cidr => match (rv, ev) {
            (FieldValue::Text(p), Some(FieldValue::Text(v))) => cidr_membership(p@, v@) == Some(true),
            _ => false,
        },
        _ => match (rv, ev) {
            (FieldValue::Text(p), Some(FieldValue::Text(v))) => if m.base64 == Base64Mode::Off {
                text_matches(m, p@, v@)
            } else {
                exists|k: int| 0 <= k < encoded_patterns(m, p@).len()
                    && text_matches(m, #[trigger] encoded_patterns(m, p@)[k], v@)
            },
            (FieldValue::Text(_), _) => false,
            (_, Some(a)) => same_scalar(rv, a),
            (_, None) => false,
        },
    }
}

/// Whether the field condition `r` holds for the event: one of its values accepts the
/// field's value (every value, with `all`), negated with `neq`.
pub open spec fn field_rule_holds(r: FieldRule, event: Seq<(String, FieldValue)>) -> bool {
    let ev = event_resolve(event, r.field@);
    let base = if r.modifiers.all {
        forall|i: int| 0 <= i < r.values@.len() ==> value_accepts(r.modifiers, #[trigger] r.values@[i], ev, event)
    } else {
        exists|i: int| 0 <= i < r.values@.len() && value_accepts(r.modifiers, #[trigger] r.values@[i], ev, event)
    };
    if r.modifiers.neq { !base } else { base }
}

/// Whether the keyword pattern `p` matches the whole of the value `v`, ignoring case; only
/// strings can match.
pub open spec fn keyword_hits_value(p: Seq<char>, v: FieldValue) -> bool {
    match v {
        FieldValue::Text(t) => glob_match(glob_tokens(lowercase(p), false), lowercase(t@)),
        _ => false,
    }
}

/// Whether the keyword `k` matches the whole of some string field of the event, ignoring case.
pub open spec fn keyword_hits(k: FieldValue, event: Seq<(String, FieldValue)>) -> bool {
    match k {
        FieldValue::Text(p) => exists|i: int| 0 <= i < event.len() && keyword_hits_value(p@, (#[trigger] event[i]).1),
        _ => false,
    }
}

/// Every field condition of the group holds.
pub open spec fn group_holds(g: Seq<FieldRule>, event: Seq<(String, FieldValue)>) -> bool {
    forall|j: int| 0 <= j < g.len() ==> field_rule_holds(#[trigger] g[j], event)
}

/// Whether the selection holds for the event.
pub open spec fn selection_holds(s: Selection, event: Seq<(String, FieldValue)>) -> bool {
    match s {
        Selection::Keywords(ks) => exists|i: int| 0 <= i < ks@.len() && keyword_hits(#[trigger] ks@[i], event),
        Selection::Fields(gs) => exists|i: int| 0 <= i < gs@.len() && group_holds((#[trigger] gs@[i])@, event),
    }
}

/// The spec value of an optional reference.
pub open spec fn opt_value(v: Option<&FieldValue>) -> Option<FieldValue> {
    match v {
        Some(x) => Some(*x),
        None => None,
    }
}

/// Whether the string pattern `p` matches the string `v` under `m` (see [`text_matches`]).
pub fn match_text(m: &Modifiers, p: &String, v: &String) -> (res: bool)
    ensures
        res == text_matches(*m, p@, v@),
{
    let (pp, vv) = if m.cased {
        (p.clone(), v.clone())
    } else {
        (to_lowercase(p.as_str()), to_lowercase(v.as_str()))
    };
    let pc = chars_of(pp.as_str());
    let vc = chars_of(vv.as_str());
    let core = compile_glob(pc.as_slice(), m.windash);
    let mut toks: Vec<GlobToken> = Vec::new();
    if m.kind == MatchKind::Contains || m.kind == MatchKind::EndsWith {
        toks.push(GlobToken::AnyRun);
    }
    let mut i: usize = 0;
    let ghost pre = toks@;
    while i < core.len()
        invariant
            0 <= i <= core.len(),
            toks@ == pre + core@.take(i as int),
        decreases core.len() - i,
    {
        toks.push(core[i]);
        assert(core@.take(i + 1) =~= core@.take(i as int).push(core@[i as int]));
        i = i + 1;
    }
    assert(core@.take(core.len() as int) =~= core@);
    if m.kind == MatchKind::Contains || m.kind == MatchKind::StartsWith {
        toks.push(GlobToken::AnyRun);
    }
    assert(toks@ =~= anchor_tokens(m.kind, glob_tokens(if m.cased { p@ } else { lowercase(p@) }, m.windash)));
    glob_matches(toks.as_slice(), vc.as_slice())
}

/// Whether one of the encoded texts of `p` matches `v` (see [`encoded_patterns`]).
fn any_pattern_matches(m: &Modifiers, p: &String, v: &String) -> (res: bool)
    ensures
        res == exists|k: int| 0 <= k < encoded_patterns(*m, p@).len()
            && text_matches(*m, #[trigger] encoded_patterns(*m, p@)[k], v@),
{
    let pats = patterns_of(m, p.as_str());
    let mut k: usize = 0;
    while k < pats.len()
        invariant
            0 <= k <= pats@.len(),
            pats@.len() == encoded_patterns(*m, p@).len(),
            forall|q: int| 0 <= q < pats@.len() ==> (#[trigger] pats@[q])@ == encoded_patterns(*m, p@)[q],
            forall|q: int| 0 <= q < k ==> !text_matches(*m, #[trigger] encoded_patterns(*m, p@)[q], v@),
        decreases pats@.len() - k,
    {
        if match_text(m, &pats[k], v) {
            assert(text_matches(*m, encoded_patterns(*m, p@)[k as int], v@));
            return true;
        }
        k = k + 1;
    }
    false
}

/// Whether two scalar values are the same (see [`same_scalar`]).
pub fn scalar_eq(a: &FieldValue, b: &FieldValue) -> (res: bool)
    ensures
        res == same_scalar(*a, *b),
{
    match (a, b) {
        (FieldValue::Null, FieldValue::Null) => true,
        (FieldValue::Bool(x), FieldValue::Bool(y)) => *x == *y,
        (FieldValue::Int(x), FieldValue::Int(y)) => *x == *y,
        (FieldValue::Number(x), FieldValue::Number(y)) => *x == *y,
        (FieldValue::Text(x), FieldValue::Text(y)) => *x == *y,
        _ => false,
    }
}

/// Whether the value `rv` accepts the event value `ev` (see [`value_accepts`]).
pub fn accepts(m: &Modifiers, rv: &FieldValue, ev: Option<&FieldValue>, event: &Event) -> (res: bool)
    ensures
        res == value_accepts(*m, *rv, opt_value(ev), event.fields@),
{
    match m.kind {
        MatchKind::Exists => match rv {
            FieldValue::Bool(b) => ev.is_some() == *b,
            _ => false,
        },
        MatchKind::FieldRef => match (rv, ev) {
            (FieldValue::Text(other), Some(a)) => match event.resolve(other.as_str()) {
                Some(b) => scalar_eq(a, b),
                None => false,
            },
            _ => false,
        },
        MatchKind::Gt => match (rv, ev) {
            (FieldValue::Int(x), Some(FieldValue::Int(y))) => *y > *x,
            _ => false,
        },
        MatchKind::Gte => match (rv, ev) {
            (FieldValue::Int(x), Some(FieldValue::Int(y))) => *y >= *x,
            _ => false,
        },
        MatchKind::Lt => match (rv, ev) {
            (FieldValue::Int(x), Some(FieldValue::Int(y))) => *y < *x,
            _ => false,
        },
        MatchKind::Lte => match (rv, ev) {
            (FieldValue::Int(x), Some(FieldValue::Int(y))) => *y <= *x,
            _ => false,
        },
        MatchKind::Regex => match (rv, ev) {
            (FieldValue::Text(p), Some(FieldValue::Text(v))) => {
                let r = regex_is_match(
                    p.as_str(),
                    m.re_case_insensitive,
                    m.re_multi_line,
                    m.re_dot_all,
                    v.as_str(),
                );
                match r {
                    Some(b) => b,
                    None => false,
                }
            },
            _ => false,
        },
        MatchKind::Cidr => match (rv, ev) {
            (FieldValue::Text(p), Some(FieldValue::Text(v))) => match cidr_contains(p.as_str(), v.as_str()) {
                Some(b) => b,
                None => false,
            },
            _ => false,
        },
        _ => match (rv, ev) {
            (FieldValue::Text(p), Some(FieldValue::Text(v))) => if m.base64 == Base64Mode::Off {
                match_text(m, p, v)
            } else {
                any_pattern_matches(m, p, v)
            },
            (FieldValue::Text(_), _) => false,
            (_, Some(a)) => scalar_eq(rv, a),
            (_, None) => false,
        },
    }
}

impl FieldRule {
    /// Whether this field condition holds for the event (see [`field_rule_holds`]).
    pub fn holds(&self, event: &Event) -> (res: bool)
        ensures
            res == field_rule_holds(*self, event.fields@),
    {
        let ev = event.resolve(self.field.as_str());
        let m = self.modifiers;
        let n = self.values.len();
        let mut i: usize = 0;
        let mut base: bool = m.all;
        while i < n
            invariant
                0 <= i <= n,
                n == self.values@.len(),
                m == self.modifiers,
                opt_value(ev) == event_resolve(event.fields@, self.field@),
                m.all ==> (base <==> forall|j: int| 0 <= j < i ==> value_accepts(m, #[trigger] self.values@[j], opt_value(ev), event.fields@)),
                !m.all ==> (base <==> exists|j: int| 0 <= j < i && value_accepts(m, #[trigger] self.values@[j], opt_value(ev), event.fields@)),
            decreases n - i,
        {
            let a = accepts(&m, &self.values[i], ev, event);
            if m.all {
                base = base && a;
            } else {
                base = base || a;
            }
            i = i + 1;
        }
        if m.neq { !base } else { base }
    }
}

/// Whether the keyword `k` matches some string field of the event (see [`keyword_hits`]).
pub fn keyword_matches(k: &FieldValue, event: &Event) -> (res: bool)
    ensures
        res == keyword_hits(*k, event.fields@),
{
    match k {
        FieldValue::Text(p) => {
            let lp = to_lowercase(p.as_str());
            let pc = chars_of(lp.as_str());
            let toks = compile_glob(pc.as_slice(), false);
            let n = event.fields.len();
            let mut i: usize = 0;
            while i < n
                invariant
                    0 <= i <= n,
                    n == event.fields@.len(),
                    *k == FieldValue::Text(*p),
                    toks@ == glob_tokens(lowercase(p@), false),
                    forall|j: int| 0 <= j < i ==> !keyword_hits_value(p@, (#[trigger] event.fields@[j]).1),
                decreases n - i,
            {
                match &event.fields[i].1 {
                    FieldValue::Text(v) => {
                        let lv = to_lowercase(v.as_str());
                        let vc = chars_of(lv.as_str());
                        if glob_matches(toks.as_slice(), vc.as_slice()) {
                            assert(keyword_hits_value(p@, event.fields@[i as int].1));
                            return true;
                        }
                    },
                    _ => {},
                }
                i = i + 1;
            }
            false
        },
        _ => false,
    }
}

impl Selection {
    /// Whether the selection holds for the event (see [`selection_holds`]).
    #[verifier::loop_isolation(false)]
    pub fn holds(&self, event: &Event) -> (res: bool)
        ensures
            res == selection_holds(*self, event.fields@),
    {
        match self {
            Selection::Keywords(ks) => {
                let mut i: usize = 0;
                while i < ks.len()
                    invariant
                        0 <= i <= ks@.len(),
                        *self == Selection::Keywords(*ks),
                        forall|j: int| 0 <= j < i ==> !keyword_hits(#[trigger] ks@[j], event.fields@),
                    decreases ks@.len() - i,
                {
                    if keyword_matches(&ks[i], event) {
                        assert(keyword_hits(ks@[i as int], event.fields@));
                        return true;
                    }
                    i = i + 1;
                }
                false
            },
            Selection::Fields(gs) => {
                let mut i: usize = 0;
                while i < gs.len()
                    invariant
                        0 <= i <= gs@.len(),
                        *self == Selection::Fields(*gs),
                        forall|j: int| 0 <= j < i ==> !group_holds((#[trigger] gs@[j])@, event.fields@),
                    decreases gs@.len() - i,
                {
                    let g = &gs[i];
                    let mut k: usize = 0;
                    let mut all_hold = true;
                    while k < g.len()
                        invariant
                            0 <= k <= g@.len(),
                            all_hold <==> forall|q: int| 0 <= q < k ==> field_rule_holds(#[trigger] g@[q], event.fields@),
                        decreases g@.len() - k,
                    {
                        if !g[k].holds(event) {
                            all_hold = false;
                        }
                        k = k + 1;
                    }
                    if all_hold {
                        assert(group_holds(gs@[i as int]@, event.fields@));
                        return true;
                    }
                    i = i + 1;
                }
                false
            },
        }
    }
}

} // verus!
