//! Sigma detection rules: how they are read from a YAML tree and how they match events.
use vstd::prelude::*;
use crate::backends::{cidr_parses, cidr_valid, regex_compiles, regex_valid};
use crate::detection::{Base64Mode, TextEncoding, MatchKind, Modifiers, FieldRule, Selection, selection_holds};
use crate::event::{lookup_map, find_key, map_lookup, Event, FieldValue};
use crate::condition::{parse_condition, condition_of_text, name_views, cond_holds, CondSpec, Condition};
use crate::text::{chars_of, split_chars, split_on, char_vec_views, string_from_chars};

verus! {

/// Why a rule could not be read.
#[derive(Debug)]
pub enum RuleError {
    /// The YAML text could not be parsed; the message is the parser's.
    Yaml(String),
    /// A part of the rule is missing or has the wrong shape; the text names the part.
    InvalidRule(String),
    /// A field condition cannot be read; the text is its key.
    InvalidField(String),
    /// A selection has the wrong shape; the text is its name.
    InvalidSelection(String),
    /// The condition cannot be read, or names a selection that does not exist.
    InvalidCondition(String),
}

/// The kinds of fault that a rule can have, one for each variant of [`RuleError`].
pub enum Fault {
    Yaml,
    Shape,
    Field,
    Selection,
    Condition,
}

/// The kind of fault that an error reports.
pub open spec fn fault_of(e: RuleError) -> Fault {
    match e {
        RuleError::Yaml(_) => Fault::Yaml,
        RuleError::InvalidRule(_) => Fault::Shape,
        RuleError::InvalidField(_) => Fault::Field,
        RuleError::InvalidSelection(_) => Fault::Selection,
        RuleError::InvalidCondition(_) => Fault::Condition,
    }
}

/// Whether `a` is `b` up to ASCII case, where `b` is lowercase.
pub open spec fn char_fold_eq(a: char, b: char) -> bool {
    a == b || ('A' <= a && a <= 'Z' && (a as u32) + 32 == (b as u32))
}

/// Whether the word `w` equals the lowercase keyword `kw`, ignoring ASCII case.
pub open spec fn ci_eq(w: Seq<char>, kw: Seq<char>) -> bool {
    w.len() == kw.len() && forall|i: int| 0 <= i < w.len() ==> char_fold_eq(#[trigger] w[i], kw[i])
}

/// Compares `w` with the lowercase keyword `kw`, ignoring ASCII case.
fn ci_equal(w: &[char], kw: &str) -> (res: bool)
    ensures
        res == ci_eq(w@, kw@),
{
    let k = chars_of(kw);
    if w.len() != k.len() {
        return false;
    }
    let mut i: usize = 0;
    while i < w.len()
        invariant
            0 <= i <= w@.len(),
            w@.len() == k@.len(),
            k@ == kw@,
            forall|j: int| 0 <= j < i ==> char_fold_eq(#[trigger] w@[j], k@[j]),
        decreases w@.len() - i,
    {
        let a = w[i];
        let b = k[i];
        let same = a == b || ('A' <= a && a <= 'Z' && (a as u32) + 32 == (b as u32));
        if !same {
            return false;
        }
        i = i + 1;
    }
    true
}

/// The modifiers of a field condition that has none.
pub open spec fn plain_modifiers() -> Modifiers {
    Modifiers {
        kind: MatchKind::Equals,
        all: false,
        cased: false,
        neq: false,
        windash: false,
        re_case_insensitive: false,
        re_multi_line: false,
        re_dot_all: false,
        encoding: TextEncoding::Utf8,
        base64: Base64Mode::Off,
    }
}

/// Sets how the value is base64-encoded; a second, different mode is an error.
pub open spec fn with_base64(m: Modifiers, b: Base64Mode) -> Option<Modifiers> {
    if m.base64 == Base64Mode::Off || m.base64 == b {
        Some(Modifiers { base64: b, ..m })
    } else {
        None
    }
}

/// Sets the encoding of the value; a second, different encoding is an error.
pub open spec fn with_encoding(m: Modifiers, e: TextEncoding) -> Option<Modifiers> {
    if m.encoding == TextEncoding::Utf8 || m.encoding == e {
        Some(Modifiers { encoding: e, ..m })
    } else {
        None
    }
}

/// Sets the match kind; a second, different kind is an error.
pub open spec fn with_kind(m: Modifiers, k: MatchKind) -> Option<Modifiers> {
    if m.kind == MatchKind::Equals || m.kind == k {
        Some(Modifiers { kind: k, ..m })
    } else {
        None
    }
}

/// The modifiers after the modifier named `name` (any ASCII case) is applied to `m`:
/// `None` for an unknown modifier, a second match kind, a second base64 mode or encoding
/// that differs from the first, or a regex flag (`i`, `m`, `s`) that does not follow `re`.
pub open spec fn apply_modifier(m: Modifiers, name: Seq<char>) -> Option<Modifiers> {
    if ci_eq(name, "contains"@) {
        with_kind(m, MatchKind::Contains)
    } else if ci_eq(name, "startswith"@) {
        with_kind(m, MatchKind::StartsWith)
    } else if ci_eq(name, "endswith"@) {
        with_kind(m, MatchKind::EndsWith)
    } else if ci_eq(name, "re"@) {
        with_kind(m, MatchKind::Regex)
    } else if ci_eq(name, "cidr"@) {
        with_kind(m, MatchKind::Cidr)
    } else if ci_eq(name, "gt"@) {
        with_kind(m, MatchKind::Gt)
    } else if ci_eq(name, "gte"@) {
        with_kind(m, MatchKind::Gte)
    } else if ci_eq(name, "lt"@) {
        with_kind(m, MatchKind::Lt)
    } else if ci_eq(name, "lte"@) {
        with_kind(m, MatchKind::Lte)
    } else if ci_eq(name, "exists"@) {
        with_kind(m, MatchKind::Exists)
    } else if ci_eq(name, "fieldref"@) {
        with_kind(m, MatchKind::FieldRef)
    } else if ci_eq(name, "all"@) {
        Some(Modifiers { all: true, ..m })
    } else if ci_eq(name, "cased"@) {
        Some(Modifiers { cased: true, ..m })
    } else if ci_eq(name, "neq"@) {
        Some(Modifiers { neq: true, ..m })
    } else if ci_eq(name, "windash"@) {
        Some(Modifiers { windash: true, ..m })
    } else if ci_eq(name, "i"@) && m.kind == MatchKind::Regex {
        Some(Modifiers { re_case_insensitive: true, ..m })
    } else if ci_eq(name, "m"@) && m.kind == MatchKind::Regex {
        Some(Modifiers { re_multi_line: true, ..m })
    } else if ci_eq(name, "s"@) && m.kind == MatchKind::Regex {
        Some(Modifiers { re_dot_all: true, ..m })
    } else if ci_eq(name, "base64"@) {
        with_base64(m, Base64Mode::Plain)
    } else if ci_eq(name, "base64offset"@) {
        with_base64(m, Base64Mode::Offset)
    } else if ci_eq(name, "wide"@) || ci_eq(name, "utf16le"@) {
        with_encoding(m, TextEncoding::Utf16Le)
    } else if ci_eq(name, "utf16be"@) {
        with_encoding(m, TextEncoding::Utf16Be)
    } else if ci_eq(name, "utf16"@) {
        with_encoding(m, TextEncoding::Utf16)
    } else {
        None
    }
}

/// Applies the modifiers `names` in order, starting from `m`.
pub open spec fn fold_modifiers(m: Modifiers, names: Seq<Seq<char>>) -> Option<Modifiers>
    decreases names.len(),
{
    if names.len() == 0 {
        Some(m)
    } else {
        match apply_modifier(m, names[0]) {
            Some(m2) => fold_modifiers(m2, names.skip(1)),
            None => None,
        }
    }
}

/// The match kinds that compare strings.
pub open spec fn is_string_kind(k: MatchKind) -> bool {
    k == MatchKind::Equals || k == MatchKind::Contains || k == MatchKind::StartsWith || k == MatchKind::EndsWith
}

/// The modifiers combine: `exists` cannot be negated with `neq`; an encoding (`wide`,
/// `utf16le`, `utf16be`, `utf16`) only goes with a base64 modifier; and the base64 modifiers go
/// with the string comparisons only, and not with `windash`.
pub open spec fn modifiers_ok(m: Modifiers) -> bool {
    &&& !(m.kind == MatchKind::Exists && m.neq)
    &&& (m.encoding != TextEncoding::Utf8 ==> m.base64 != Base64Mode::Off)
    &&& (m.base64 != Base64Mode::Off ==> is_string_kind(m.kind) && !m.windash)
}

/// The text holds no wildcard.
pub open spec fn no_glob_chars(t: Seq<char>) -> bool {
    forall|i: int| 0 <= i < t.len() ==> #[trigger] t[i] != '*' && t[i] != '?'
}

/// A value that a field condition may hold.
pub open spec fn is_scalar(v: FieldValue) -> bool {
    match v {
        FieldValue::Sequence(_) | FieldValue::Mapping(_) => false,
        _ => true,
    }
}

/// The values that the YAML value `v` of a field condition lists: a sequence of scalars, or
/// one scalar.
pub open spec fn values_of(v: FieldValue) -> Option<Seq<FieldValue>> {
    match v {
        FieldValue::Sequence(items) => if forall|i: int| 0 <= i < items@.len() ==> is_scalar(#[trigger] items@[i]) {
            Some(items@)
        } else {
            None
        },
        FieldValue::Mapping(_) => None,
        _ => Some(seq![v]),
    }
}

/// Whether the value `v` suits the modifiers `m`: with a base64 modifier, a string without
/// wildcards; otherwise as the match kind asks (see [`value_fits_kind`]).
pub open spec fn value_fits(m: Modifiers, v: FieldValue) -> bool {
    if m.base64 != Base64Mode::Off {
        v matches FieldValue::Text(t) && no_glob_chars(t@)
    } else {
        value_fits_kind(m, v)
    }
}

/// Whether the value `v` suits the match kind of `m`: `exists` takes a boolean, `fieldref`
/// a field name, the comparisons an integer, `re` a regex that compiles, `cidr` a valid
/// network, and the string modifiers a string.
pub open spec fn value_fits_kind(m: Modifiers, v: FieldValue) -> bool {
    match m.kind {
        MatchKind::Exists => v is Bool,
        MatchKind::FieldRef => v is Text,
        MatchKind::Gt | MatchKind::Gte | MatchKind::Lt | MatchKind::Lte => v is Int,
        MatchKind::Regex => match v {
            FieldValue::Text(t) => regex_valid(t@, m.re_case_insensitive, m.re_multi_line, m.re_dot_all),
            _ => false,
        },
        MatchKind::Cidr => match v {
            FieldValue::Text(t) => cidr_valid(t@),
            _ => false,
        },
        MatchKind::Contains | MatchKind::StartsWith | MatchKind::EndsWith => v is Text,
        MatchKind::Equals => true,
    }
}

/// Whether the entry `key: v` of a selection is a valid field condition: a non-empty field
/// name, known modifiers, and values that suit them.
pub open spec fn field_rule_ok(key: Seq<char>, v: FieldValue) -> bool {
    let parts = split_on(key, '|');
    &&& parts[0].len() > 0
    &&& fold_modifiers(plain_modifiers(), parts.skip(1)) matches Some(m)
    &&& modifiers_ok(m)
    &&& values_of(v) matches Some(vals)
    &&& forall|i: int| 0 <= i < vals.len() ==> value_fits(m, #[trigger] vals[i])
}

/// `r` is what the entry `key: v` of a selection reads as: the field name before the first
/// `|`, the modifiers after it, and the values of `v`.
pub open spec fn field_rule_reads(r: FieldRule, key: Seq<char>, v: FieldValue) -> bool {
    &&& field_rule_ok(key, v)
    &&& r.field@ == split_on(key, '|')[0]
    &&& fold_modifiers(plain_modifiers(), split_on(key, '|').skip(1)) == Some(r.modifiers)
    &&& values_of(v) == Some(r.values@)
}

/// Applies the modifier named `name` to `m` (see [`apply_modifier`]).
fn apply_modifier_exec(m: Modifiers, name: &[char]) -> (res: Option<Modifiers>)
    ensures
        res == apply_modifier(m, name@),
{
    let set_kind = |k: MatchKind| -> (r: Option<Modifiers>)
        ensures r == with_kind(m, k)
    {
        if m.kind == MatchKind::Equals || m.kind == k {
            Some(Modifiers { kind: k, ..m })
        } else {
            None
        }
    };
    let set_base64 = |b: Base64Mode| -> (r: Option<Modifiers>)
        ensures r == with_base64(m, b)
    {
        if m.base64 == Base64Mode::Off || m.base64 == b {
            Some(Modifiers { base64: b, ..m })
        } else {
            None
        }
    };
    let set_encoding = |e: TextEncoding| -> (r: Option<Modifiers>)
        ensures r == with_encoding(m, e)
    {
        if m.encoding == TextEncoding::Utf8 || m.encoding == e {
            Some(Modifiers { encoding: e, ..m })
        } else {
            None
        }
    };
    if ci_equal(name, "contains") {
        set_kind(MatchKind::Contains)
    } else if ci_equal(name, "startswith") {
        set_kind(MatchKind::StartsWith)
    } else if ci_equal(name, "endswith") {
        set_kind(MatchKind::EndsWith)
    } else if ci_equal(name, "re") {
        set_kind(MatchKind::Regex)
    } else if ci_equal(name, "cidr") {
        set_kind(MatchKind::Cidr)
    } else if ci_equal(name, "gt") {
        set_kind(MatchKind::Gt)
    } else if ci_equal(name, "gte") {
        set_kind(MatchKind::Gte)
    } else if ci_equal(name, "lt") {
        set_kind(MatchKind::Lt)
    } else if ci_equal(name, "lte") {
        set_kind(MatchKind::Lte)
    } else if ci_equal(name, "exists") {
        set_kind(MatchKind::Exists)
    } else if ci_equal(name, "fieldref") {
        set_kind(MatchKind::FieldRef)
    } else if ci_equal(name, "all") {
        Some(Modifiers { all: true, ..m })
    } else if ci_equal(name, "cased") {
        Some(Modifiers { cased: true, ..m })
    } else if ci_equal(name, "neq") {
        Some(Modifiers { neq: true, ..m })
    } else if ci_equal(name, "windash") {
        Some(Modifiers { windash: true, ..m })
    } else if ci_equal(name, "i") && m.kind == MatchKind::Regex {
        Some(Modifiers { re_case_insensitive: true, ..m })
    } else if ci_equal(name, "m") && m.kind == MatchKind::Regex {
        Some(Modifiers { re_multi_line: true, ..m })
    } else if ci_equal(name, "s") && m.kind == MatchKind::Regex {
        Some(Modifiers { re_dot_all: true, ..m })
    } else if ci_equal(name, "base64") {
        set_base64(Base64Mode::Plain)
    } else if ci_equal(name, "base64offset") {
        set_base64(Base64Mode::Offset)
    } else if ci_equal(name, "wide") || ci_equal(name, "utf16le") {
        set_encoding(TextEncoding::Utf16Le)
    } else if ci_equal(name, "utf16be") {
        set_encoding(TextEncoding::Utf16Be)
    } else if ci_equal(name, "utf16") {
        set_encoding(TextEncoding::Utf16)
    } else {
        None
    }
}

/// Whether `v` suits the modifiers `m` (see [`value_fits`]).
fn value_fits_exec(m: &Modifiers, v: &FieldValue) -> (res: bool)
    ensures
        res == value_fits(*m, *v),
{
    if m.base64 != Base64Mode::Off {
        return match v {
            FieldValue::Text(t) => {
                let cs = chars_of(t.as_str());
                let mut i: usize = 0;
                let mut ok = true;
                while i < cs.len()
                    invariant
                        0 <= i <= cs@.len(),
                        cs@ == t@,
                        ok <==> forall|j: int| 0 <= j < i ==> #[trigger] cs@[j] != '*' && cs@[j] != '?',
                    decreases cs@.len() - i,
                {
                    if cs[i] == '*' || cs[i] == '?' {
                        ok = false;
                    }
                    i = i + 1;
                }
                ok
            },
            _ => false,
        };
    }
    match m.kind {
        MatchKind::Exists => matches!(v, FieldValue::Bool(_)),
        MatchKind::FieldRef => matches!(v, FieldValue::Text(_)),
        MatchKind::Gt | MatchKind::Gte | MatchKind::Lt | MatchKind::Lte => matches!(v, FieldValue::Int(_)),
        MatchKind::Regex => match v {
            FieldValue::Text(t) => regex_compiles(t.as_str(), m.re_case_insensitive, m.re_multi_line, m.re_dot_all),
            _ => false,
        },
        MatchKind::Cidr => match v {
            FieldValue::Text(t) => cidr_parses(t.as_str()),
            _ => false,
        },
        MatchKind::Contains | MatchKind::StartsWith | MatchKind::EndsWith => matches!(v, FieldValue::Text(_)),
        MatchKind::Equals => true,
    }
}

/// The name of the modifier at which applying `names` in order from `m` fails, if it does.
pub open spec fn fold_failure(m: Modifiers, names: Seq<Seq<char>>) -> Option<Seq<char>>
    decreases names.len(),
{
    if names.len() == 0 {
        None
    } else {
        match apply_modifier(m, names[0]) {
            Some(m2) => fold_failure(m2, names.skip(1)),
            None => Some(names[0]),
        }
    }
}

/// Whether `name` is the name of a field modifier, in any ASCII case.
pub open spec fn is_modifier_name(name: Seq<char>) -> bool {
    ||| ci_eq(name, "contains"@)
    ||| ci_eq(name, "startswith"@)
    ||| ci_eq(name, "endswith"@)
    ||| ci_eq(name, "re"@)
    ||| ci_eq(name, "cidr"@)
    ||| ci_eq(name, "gt"@)
    ||| ci_eq(name, "gte"@)
    ||| ci_eq(name, "lt"@)
    ||| ci_eq(name, "lte"@)
    ||| ci_eq(name, "exists"@)
    ||| ci_eq(name, "fieldref"@)
    ||| ci_eq(name, "all"@)
    ||| ci_eq(name, "cased"@)
    ||| ci_eq(name, "neq"@)
    ||| ci_eq(name, "windash"@)
    ||| ci_eq(name, "i"@)
    ||| ci_eq(name, "m"@)
    ||| ci_eq(name, "s"@)
    ||| ci_eq(name, "base64"@)
    ||| ci_eq(name, "base64offset"@)
    ||| ci_eq(name, "wide"@)
    ||| ci_eq(name, "utf16le"@)
    ||| ci_eq(name, "utf16be"@)
    ||| ci_eq(name, "utf16"@)
}

/// The message of an error about the field condition with key `key`: an unknown modifier is
/// named (`Unknown field modifier 'x'`), a known one that cannot be applied where it stands
/// is named too, and any other fault reports the key.
pub open spec fn field_error_text(key: Seq<char>) -> Seq<char> {
    let parts = split_on(key, '|');
    if parts[0].len() == 0 {
        key
    } else {
        match fold_failure(plain_modifiers(), parts.skip(1)) {
            Some(n) => if is_modifier_name(n) {
                "Field modifier '"@ + n + "' cannot be combined with the modifiers before it"@
            } else {
                "Unknown field modifier '"@ + n + "'"@
            },
            None => key,
        }
    }
}

/// The error about a field condition carries [`field_error_text`].
pub open spec fn field_error(e: RuleError, key: Seq<char>) -> bool {
    e matches RuleError::InvalidField(msg) && msg@ == field_error_text(key)
}

/// Whether `name` is the name of a field modifier (see [`is_modifier_name`]).
fn known_modifier(name: &[char]) -> (res: bool)
    ensures
        res == is_modifier_name(name@),
{
    ci_equal(name, "contains")
        || ci_equal(name, "startswith")
        || ci_equal(name, "endswith")
        || ci_equal(name, "re")
        || ci_equal(name, "cidr")
        || ci_equal(name, "gt")
        || ci_equal(name, "gte")
        || ci_equal(name, "lt")
        || ci_equal(name, "lte")
        || ci_equal(name, "exists")
        || ci_equal(name, "fieldref")
        || ci_equal(name, "all")
        || ci_equal(name, "cased")
        || ci_equal(name, "neq")
        || ci_equal(name, "windash")
        || ci_equal(name, "i")
        || ci_equal(name, "m")
        || ci_equal(name, "s")
        || ci_equal(name, "base64")
        || ci_equal(name, "base64offset")
        || ci_equal(name, "wide")
        || ci_equal(name, "utf16le")
        || ci_equal(name, "utf16be")
        || ci_equal(name, "utf16")
}

/// The text `prefix`, then the characters `middle`, then `suffix`.
fn quoted(prefix: &str, middle: &[char], suffix: &str) -> (res: String)
    ensures
        res@ == prefix@ + middle@ + suffix@,
{
    let mut cs = chars_of(prefix);
    let mut i: usize = 0;
    let ghost p0 = cs@;
    while i < middle.len()
        invariant
            0 <= i <= middle@.len(),
            cs@ == p0 + middle@.take(i as int),
        decreases middle@.len() - i,
    {
        cs.push(middle[i]);
        assert(middle@.take(i + 1) =~= middle@.take(i as int).push(middle@[i as int]));
        i = i + 1;
    }
    assert(middle@.take(middle@.len() as int) =~= middle@);
    let tail = chars_of(suffix);
    let mut j: usize = 0;
    let ghost p1 = cs@;
    while j < tail.len()
        invariant
            0 <= j <= tail@.len(),
            cs@ == p1 + tail@.take(j as int),
        decreases tail@.len() - j,
    {
        cs.push(tail[j]);
        assert(tail@.take(j + 1) =~= tail@.take(j as int).push(tail@[j as int]));
        j = j + 1;
    }
    assert(tail@.take(tail@.len() as int) =~= tail@);
    assert(cs@ =~= prefix@ + middle@ + suffix@);
    string_from_chars(cs.as_slice())
}

/// Reads the entry `key: v` of a selection as a field condition.
#[verifier::loop_isolation(false)]
pub fn read_field_rule(key: &String, v: FieldValue) -> (res: Result<FieldRule, RuleError>)
    ensures
        match res {
            Ok(r) => field_rule_reads(r, key@, v),
            Err(e) => !field_rule_ok(key@, v) && field_error(e, key@),
        },
{
    let kc = chars_of(key.as_str());
    let parts = split_chars(kc.as_slice(), '|');
    let ghost pv = split_on(key@, '|');
    assert(char_vec_views(parts@)[0] == parts@[0]@);
    if parts[0].len() == 0 {
        return Err(RuleError::InvalidField(key.clone()));
    }
    let mut m = Modifiers {
        kind: MatchKind::Equals,
        all: false,
        cased: false,
        neq: false,
        windash: false,
        re_case_insensitive: false,
        re_multi_line: false,
        re_dot_all: false,
        encoding: TextEncoding::Utf8,
        base64: Base64Mode::Off,
    };
    let mut i: usize = 1;
    while i < parts.len()
        invariant
            1 <= i <= parts@.len(),
            char_vec_views(parts@) == pv,
            pv.len() >= 1,
            fold_modifiers(plain_modifiers(), pv.skip(1)) == fold_modifiers(m, pv.skip(i as int)),
            fold_failure(plain_modifiers(), pv.skip(1)) == fold_failure(m, pv.skip(i as int)),
        decreases parts@.len() - i,
    {
        assert(pv.skip(i as int)[0] == parts@[i as int]@);
        assert(pv.skip(i as int).skip(1) =~= pv.skip(i + 1));
        match apply_modifier_exec(m, parts[i].as_slice()) {
            Some(m2) => {
                m = m2;
            },
            None => {
                assert(fold_modifiers(m, pv.skip(i as int)) is None);
                assert(fold_modifiers(plain_modifiers(), pv.skip(1)) is None);
                assert(fold_failure(plain_modifiers(), pv.skip(1)) == Some(parts@[i as int]@));
                let msg = if known_modifier(parts[i].as_slice()) {
                    quoted("Field modifier '", parts[i].as_slice(), "' cannot be combined with the modifiers before it")
                } else {
                    quoted("Unknown field modifier '", parts[i].as_slice(), "'")
                };
                return Err(RuleError::InvalidField(msg));
            },
        }
        i = i + 1;
    }
    assert(pv.skip(i as int).len() == 0);
    assert(fold_modifiers(plain_modifiers(), pv.skip(1)) == Some(m));
    let kind_is_string = m.kind == MatchKind::Equals || m.kind == MatchKind::Contains
        || m.kind == MatchKind::StartsWith || m.kind == MatchKind::EndsWith;
    if (m.kind == MatchKind::Exists && m.neq) || (m.encoding != TextEncoding::Utf8 && m.base64 == Base64Mode::Off)
        || (m.base64 != Base64Mode::Off && (!kind_is_string || m.windash)) {
        return Err(RuleError::InvalidField(key.clone()));
    }
    let ghost v0 = v;
    let values: Vec<FieldValue> = match v {
        FieldValue::Sequence(items) => {
            let mut j: usize = 0;
            while j < items.len()
                invariant
                    0 <= j <= items@.len(),
                    forall|q: int| 0 <= q < j ==> is_scalar(#[trigger] items@[q]),
                decreases items@.len() - j,
            {
                match &items[j] {
                    FieldValue::Sequence(_) | FieldValue::Mapping(_) => {
                        return Err(RuleError::InvalidField(key.clone()));
                    },
                    _ => {},
                }
                j = j + 1;
            }
            items
        },
        FieldValue::Mapping(_) => {
            return Err(RuleError::InvalidField(key.clone()));
        },
        other => {
            let mut one: Vec<FieldValue> = Vec::new();
            one.push(other);
            assert(one@ =~= seq![v0]);
            one
        },
    };
    assert(values_of(v0) == Some(values@));
    let mut j: usize = 0;
    while j < values.len()
        invariant
            0 <= j <= values@.len(),
            forall|q: int| 0 <= q < j ==> value_fits(m, #[trigger] values@[q]),
        decreases values@.len() - j,
    {
        if !value_fits_exec(&m, &values[j]) {
            assert(!value_fits(m, values@[j as int]));
            assert(values_of(v0)->0[j as int] == values@[j as int]);
            assert(fold_modifiers(plain_modifiers(), split_on(key@, '|').skip(1)) == Some(m));
            assert(!field_rule_ok(key@, v0));
            return Err(RuleError::InvalidField(key.clone()));
        }
        j = j + 1;
    }
    let field = string_from_chars(parts[0].as_slice());
    Ok(FieldRule { field, modifiers: m, values })
}

} // verus!

verus! {

/// The entry is `key: value` with a string key that reads as a field condition.
pub open spec fn entry_ok(e: (FieldValue, FieldValue)) -> bool {
    match e.0 {
        FieldValue::Text(k) => field_rule_ok(k@, e.1),
        _ => false,
    }
}

/// `r` is what the entry `key: value` reads as.
pub open spec fn entry_reads(r: FieldRule, e: (FieldValue, FieldValue)) -> bool {
    match e.0 {
        FieldValue::Text(k) => field_rule_reads(r, k@, e.1),
        _ => false,
    }
}

/// Every entry of the mapping reads as a field condition.
pub open spec fn group_ok(es: Seq<(FieldValue, FieldValue)>) -> bool {
    forall|i: int| 0 <= i < es.len() ==> entry_ok(#[trigger] es[i])
}

/// `g` is what the entries of the mapping read as, one field condition per entry, in order.
pub open spec fn group_reads(g: Seq<FieldRule>, es: Seq<(FieldValue, FieldValue)>) -> bool {
    g.len() == es.len() && forall|i: int| 0 <= i < es.len() ==> entry_reads(#[trigger] g[i], es[i])
}

/// Entry `i` is the first of the mapping that does not read as a field condition.
pub open spec fn first_bad_entry(es: Seq<(FieldValue, FieldValue)>, i: int) -> bool {
    &&& 0 <= i < es.len()
    &&& !entry_ok(es[i])
    &&& forall|j: int| 0 <= j < i ==> entry_ok(#[trigger] es[j])
}

/// The fault of a mapping that does not read as a group: at its first bad entry, a key that
/// is not a string is a fault of the selection, and anything else one of the field condition.
pub open spec fn group_fault(es: Seq<(FieldValue, FieldValue)>) -> Fault {
    let i = choose|i: int| first_bad_entry(es, i);
    if es[i].0 is Text { Fault::Field } else { Fault::Selection }
}

/// The message of a field error in a mapping that does not read as a group: that of its
/// first bad entry.
pub open spec fn group_field_text(es: Seq<(FieldValue, FieldValue)>) -> Seq<char> {
    let i = choose|i: int| first_bad_entry(es, i);
    field_error_text(key_text(es[i].0))
}

/// The error carries the message `text` if it is a field error.
pub open spec fn field_text_is(e: RuleError, text: Seq<char>) -> bool {
    e matches RuleError::InvalidField(msg) ==> msg@ == text
}

/// A mapping that does not read as a group has exactly one first bad entry.
proof fn lemma_first_bad_entry(es: Seq<(FieldValue, FieldValue)>, i: int)
    requires
        first_bad_entry(es, i),
    ensures
        (choose|k: int| first_bad_entry(es, k)) == i,
{
    let k = choose|k: int| first_bad_entry(es, k);
    assert(first_bad_entry(es, k));
    if k < i {
        assert(entry_ok(es[k]));
    }
    if i < k {
        assert(entry_ok(es[i]));
    }
}

/// Reads the entries of a mapping as a group of field conditions.
pub fn read_group(es: Vec<(FieldValue, FieldValue)>, name: &String) -> (res: Result<Vec<FieldRule>, RuleError>)
    ensures
        match res {
            Ok(g) => group_reads(g@, es@),
            Err(e) => !group_ok(es@) && fault_of(e) == group_fault(es@) && field_text_is(e, group_field_text(es@)),
        },
{
    let ghost es0 = es@;
    let mut g: Vec<FieldRule> = Vec::new();
    for e in it: es.into_iter()
        invariant
            it.seq() == es0,
            g@.len() == it.index(),
            forall|j: int| 0 <= j < it.index() ==> entry_reads(#[trigger] g@[j], es0[j]),
            forall|j: int| 0 <= j < it.index() ==> entry_ok(#[trigger] es0[j]),
    {
        let ghost idx = it.index() as int;
        let (k, v) = e;
        match k {
            FieldValue::Text(key) => {
                match read_field_rule(&key, v) {
                    Ok(r) => {
                        g.push(r);
                    },
                    Err(err) => {
                        assert(!entry_ok(es0[idx]));
                        proof {
                            lemma_first_bad_entry(es0, idx);
                        }
                        return Err(err);
                    },
                }
            },
            _ => {
                assert(!entry_ok(es0[idx]));
                proof {
                    lemma_first_bad_entry(es0, idx);
                }
                return Err(RuleError::InvalidSelection(name.clone()));
            },
        }
    }
    Ok(g)
}

} // verus!

verus! {

/// The value is a mapping whose entries read as field conditions.
pub open spec fn mapping_group_ok(v: FieldValue) -> bool {
    match v {
        FieldValue::Mapping(es) => group_ok(es@),
        _ => false,
    }
}

/// `g` is what the mapping `v` reads as.
pub open spec fn mapping_group_reads(g: Seq<FieldRule>, v: FieldValue) -> bool {
    match v {
        FieldValue::Mapping(es) => group_reads(g, es@),
        _ => false,
    }
}

/// A non-empty list made only of mappings.
pub open spec fn all_mappings(items: Seq<FieldValue>) -> bool {
    items.len() > 0 && forall|i: int| 0 <= i < items.len() ==> (#[trigger] items[i]) is Mapping
}

/// Whether the YAML value `v` reads as a selection: a mapping of field conditions, a
/// non-empty list of such mappings, a list of keywords, or a single keyword.
pub open spec fn selection_ok(v: FieldValue) -> bool {
    match v {
        FieldValue::Mapping(es) => group_ok(es@),
        FieldValue::Sequence(items) => if all_mappings(items@) {
            forall|i: int| 0 <= i < items@.len() ==> mapping_group_ok(#[trigger] items@[i])
        } else {
            forall|i: int| 0 <= i < items@.len() ==> is_scalar(#[trigger] items@[i])
        },
        FieldValue::Null => false,
        _ => true,
    }
}

/// `s` is what the YAML value `v` reads as (see [`selection_ok`]).
pub open spec fn selection_reads(s: Selection, v: FieldValue) -> bool {
    &&& selection_ok(v)
    &&& match v {
        FieldValue::Mapping(es) => match s {
            Selection::Fields(gs) => gs@.len() == 1 && group_reads(gs@[0]@, es@),
            _ => false,
        },
        FieldValue::Sequence(items) => if all_mappings(items@) {
            match s {
                Selection::Fields(gs) => gs@.len() == items@.len() && forall|i: int| 0 <= i < items@.len()
                    ==> mapping_group_reads((#[trigger] gs@[i])@, items@[i]),
                _ => false,
            }
        } else {
            match s {
                Selection::Keywords(ks) => ks@ == items@,
                _ => false,
            }
        },
        _ => match s {
            Selection::Keywords(ks) => ks@ == seq![v],
            _ => false,
        },
    }
}

/// Item `i` is the first of the list that does not read as a group of field conditions.
pub open spec fn first_bad_item(items: Seq<FieldValue>, i: int) -> bool {
    &&& 0 <= i < items.len()
    &&& !mapping_group_ok(items[i])
    &&& forall|j: int| 0 <= j < i ==> mapping_group_ok(#[trigger] items[j])
}

/// The fault of a value that does not read as a selection: that of its mapping, or of the
/// first mapping of its list that does not read; any other shape is a fault of the selection.
pub open spec fn selection_fault(v: FieldValue) -> Fault {
    match v {
        FieldValue::Mapping(es) => group_fault(es@),
        FieldValue::Sequence(items) => if all_mappings(items@) {
            let i = choose|i: int| first_bad_item(items@, i);
            match items@[i] {
                FieldValue::Mapping(es) => group_fault(es@),
                _ => Fault::Selection,
            }
        } else {
            Fault::Selection
        },
        _ => Fault::Selection,
    }
}

/// The message of a field error in a value that does not read as a selection: that of its
/// mapping, or of the first mapping of its list that does not read.
pub open spec fn selection_field_text(v: FieldValue) -> Seq<char> {
    match v {
        FieldValue::Mapping(es) => group_field_text(es@),
        FieldValue::Sequence(items) => {
            let i = choose|i: int| first_bad_item(items@, i);
            match items@[i] {
                FieldValue::Mapping(es) => group_field_text(es@),
                _ => Seq::empty(),
            }
        },
        _ => Seq::empty(),
    }
}

/// A list with a bad item has exactly one first bad item.
proof fn lemma_first_bad_item(items: Seq<FieldValue>, i: int)
    requires
        first_bad_item(items, i),
    ensures
        (choose|k: int| first_bad_item(items, k)) == i,
{
    let k = choose|k: int| first_bad_item(items, k);
    assert(first_bad_item(items, k));
    if k < i {
        assert(mapping_group_ok(items[k]));
    }
    if i < k {
        assert(mapping_group_ok(items[i]));
    }
}

/// A group that reads from a mapping shows that the mapping is valid.
proof fn lemma_group_reads_ok(g: Seq<FieldRule>, es: Seq<(FieldValue, FieldValue)>)
    requires
        group_reads(g, es),
    ensures
        group_ok(es),
{
    assert forall|i: int| 0 <= i < es.len() implies entry_ok(#[trigger] es[i]) by {
        assert(entry_reads(g[i], es[i]));
    }
}

/// Reads the YAML value `v` of the selection `name`.
#[verifier::loop_isolation(false)]
pub fn read_selection(name: &String, v: FieldValue) -> (res: Result<Selection, RuleError>)
    ensures
        match res {
            Ok(s) => selection_reads(s, v),
            Err(e) => !selection_ok(v) && fault_of(e) == selection_fault(v)
                && field_text_is(e, selection_field_text(v)),
        },
{
    let ghost v0 = v;
    match v {
        FieldValue::Mapping(es) => {
            let ghost es0 = es@;
            let g = read_group(es, name)?;
            proof {
                lemma_group_reads_ok(g@, es0);
            }
            let mut gs: Vec<Vec<FieldRule>> = Vec::new();
            gs.push(g);
            Ok(Selection::Fields(gs))
        },
        FieldValue::Sequence(items) => {
            let mut all_map = items.len() > 0;
            let mut all_scalar = true;
            let mut j: usize = 0;
            while j < items.len()
                invariant
                    0 <= j <= items@.len(),
                    all_map <==> (items@.len() > 0 && forall|q: int| 0 <= q < j ==> (#[trigger] items@[q]) is Mapping),
                    all_scalar <==> forall|q: int| 0 <= q < j ==> is_scalar(#[trigger] items@[q]),
                decreases items@.len() - j,
            {
                match &items[j] {
                    FieldValue::Mapping(_) => {
                        all_scalar = false;
                    },
                    FieldValue::Sequence(_) => {
                        all_map = false;
                        all_scalar = false;
                    },
                    _ => {
                        all_map = false;
                    },
                }
                j = j + 1;
            }
            if all_map {
                let ghost items0 = items@;
                let mut gs: Vec<Vec<FieldRule>> = Vec::new();
                for item in it: items.into_iter()
                    invariant
                        it.seq() == items0,
                        all_mappings(items0),
                        gs@.len() == it.index(),
                        forall|q: int| 0 <= q < it.index() ==> mapping_group_reads((#[trigger] gs@[q])@, items0[q]),
                        forall|q: int| 0 <= q < it.index() ==> mapping_group_ok(#[trigger] items0[q]),
                {
                    let ghost idx = it.index();
                    assert(items0[idx] is Mapping);
                    match item {
                        FieldValue::Mapping(es) => {
                            match read_group(es, name) {
                                Ok(g) => {
                                    proof {
                                        lemma_group_reads_ok(g@, es@);
                                    }
                                    gs.push(g);
                                },
                                Err(e) => {
                                    assert(!mapping_group_ok(items0[idx]));
                                    proof {
                                        lemma_first_bad_item(items0, idx as int);
                                    }
                                    return Err(e);
                                },
                            }
                        },
                        _ => {
                            return Err(RuleError::InvalidSelection(name.clone()));
                        },
                    }
                }
                Ok(Selection::Fields(gs))
            } else if all_scalar {
                Ok(Selection::Keywords(items))
            } else {
                Err(RuleError::InvalidSelection(name.clone()))
            }
        },
        FieldValue::Null => Err(RuleError::InvalidSelection(name.clone())),
        other => {
            let mut ks: Vec<FieldValue> = Vec::new();
            ks.push(other);
            assert(ks@ =~= seq![v0]);
            Ok(Selection::Keywords(ks))
        },
    }
}

} // verus!

verus! {

/// The entry's key is the string `condition`.
pub open spec fn is_condition_key(k: FieldValue) -> bool {
    match k {
        FieldValue::Text(s) => s@ == "condition"@,
        _ => false,
    }
}

/// The text of a string key, or the empty sequence.
pub open spec fn key_text(k: FieldValue) -> Seq<char> {
    match k {
        FieldValue::Text(s) => s@,
        _ => Seq::empty(),
    }
}

/// The entries of a detection mapping that are selections: all but `condition`, in order.
pub open spec fn selection_entries(es: Seq<(FieldValue, FieldValue)>) -> Seq<(FieldValue, FieldValue)>
    decreases es.len(),
{
    if es.len() == 0 {
        es
    } else {
        let sub = selection_entries(es.drop_last());
        if is_condition_key(es.last().0) { sub } else { sub.push(es.last()) }
    }
}

/// The keys of the entries, as text.
pub open spec fn entry_names(es: Seq<(FieldValue, FieldValue)>) -> Seq<Seq<char>> {
    Seq::new(es.len(), |i: int| key_text(es[i].0))
}

/// The condition that the `condition` entry of a detection mapping spells.
pub open spec fn condition_entry(es: Seq<(FieldValue, FieldValue)>) -> Option<CondSpec> {
    match map_lookup(es, "condition"@) {
        Some(FieldValue::Text(c)) => condition_of_text(c@),
        _ => None,
    }
}

/// Every selection that the condition names by name is among `names`.
pub open spec fn refs_ok(c: CondSpec, names: Seq<Seq<char>>) -> bool
    decreases c,
{
    match c {
        CondSpec::Selection(n) => names.contains(n),
        CondSpec::Not(a) => refs_ok(*a, names),
        CondSpec::And(a, b) => refs_ok(*a, names) && refs_ok(*b, names),
        CondSpec::Or(a, b) => refs_ok(*a, names) && refs_ok(*b, names),
        _ => true,
    }
}

/// The entry has a string key and a value that reads as a selection.
pub open spec fn selection_entry_ok(e: (FieldValue, FieldValue)) -> bool {
    e.0 is Text && selection_ok(e.1)
}

/// Whether the YAML value `v` reads as a detection section: a mapping with a `condition`
/// that parses and names only selections that exist, and selections that read.
pub open spec fn detection_ok(v: FieldValue) -> bool {
    match v {
        FieldValue::Mapping(es) => {
            let sel = selection_entries(es@);
            &&& condition_entry(es@) matches Some(c)
            &&& refs_ok(c, entry_names(sel))
            &&& forall|i: int| 0 <= i < sel.len() ==> selection_entry_ok(#[trigger] sel[i])
        },
        _ => false,
    }
}

/// The selections of a detection section.
pub struct Detection {
    /// The selections, named, in the order of the rule.
    pub selections: Vec<(String, Selection)>,
    /// How the outcomes of the selections combine.
    pub condition: Condition,
}

/// `d` is what the YAML value `v` reads as (see [`detection_ok`]).
pub open spec fn detection_reads(d: Detection, v: FieldValue) -> bool {
    &&& detection_ok(v)
    &&& match v {
        FieldValue::Mapping(es) => {
            let sel = selection_entries(es@);
            &&& condition_entry(es@) == Some(d.condition@)
            &&& d.selections@.len() == sel.len()
            &&& forall|i: int| 0 <= i < sel.len() ==> (#[trigger] d.selections@[i]).0@ == key_text(sel[i].0)
                && selection_reads(d.selections@[i].1, sel[i].1)
        },
        _ => false,
    }
}

/// Entry `i` is the first of the selection entries that does not read as a selection.
pub open spec fn first_bad_selection(sel: Seq<(FieldValue, FieldValue)>, i: int) -> bool {
    &&& 0 <= i < sel.len()
    &&& !selection_entry_ok(sel[i])
    &&& forall|j: int| 0 <= j < i ==> selection_entry_ok(#[trigger] sel[j])
}

/// The fault of a value that does not read as a detection section, in the order in which it
/// is read: its shape and its `condition` entry; a condition that does not parse; then the
/// first selection that does not read (a key that is not a string is a fault of the shape);
/// and last a condition that names a selection that does not exist.
pub open spec fn detection_fault(v: FieldValue) -> Fault {
    match v {
        FieldValue::Mapping(es) => match map_lookup(es@, "condition"@) {
            Some(FieldValue::Text(c)) => if condition_of_text(c@) is None {
                Fault::Condition
            } else {
                let sel = selection_entries(es@);
                if exists|i: int| first_bad_selection(sel, i) {
                    let i = choose|i: int| first_bad_selection(sel, i);
                    if sel[i].0 is Text { selection_fault(sel[i].1) } else { Fault::Shape }
                } else {
                    Fault::Condition
                }
            },
            _ => Fault::Shape,
        },
        _ => Fault::Shape,
    }
}

/// The message of a field error in a value that does not read as a detection section: that
/// of its first selection that does not read.
pub open spec fn detection_field_text(v: FieldValue) -> Seq<char> {
    match v {
        FieldValue::Mapping(es) => {
            let sel = selection_entries(es@);
            let i = choose|i: int| first_bad_selection(sel, i);
            selection_field_text(sel[i].1)
        },
        _ => Seq::empty(),
    }
}

/// A list of selection entries with a bad one has exactly one first bad one.
proof fn lemma_first_bad_selection(sel: Seq<(FieldValue, FieldValue)>, i: int)
    requires
        first_bad_selection(sel, i),
    ensures
        (choose|k: int| first_bad_selection(sel, k)) == i,
{
    let k = choose|k: int| first_bad_selection(sel, k);
    assert(first_bad_selection(sel, k));
    if k < i {
        assert(selection_entry_ok(sel[k]));
    }
    if i < k {
        assert(selection_entry_ok(sel[i]));
    }
}

/// Whether every selection that `c` names is among `names`.
#[verifier::loop_isolation(false)]
fn check_refs(c: &Condition, names: &Vec<String>) -> (res: bool)
    ensures
        res == refs_ok(c@, name_views(names@)),
    decreases c,
{
    match c {
        Condition::Selection(n) => {
            let mut i: usize = 0;
            while i < names.len()
                invariant
                    0 <= i <= names@.len(),
                    forall|j: int| 0 <= j < i ==> names@[j]@ != n@,
                decreases names@.len() - i,
            {
                if names[i] == *n {
                    assert(name_views(names@)[i as int] == n@);
                    assert(name_views(names@).contains(n@));
                    return true;
                }
                i = i + 1;
            }
            assert forall|j: int| 0 <= j < name_views(names@).len() implies name_views(names@)[j] != n@ by {
                assert(name_views(names@)[j] == names@[j]@);
            }
            false
        },
        Condition::Not(a) => check_refs(a, names),
        Condition::And(a, b) => check_refs(a, names) && check_refs(b, names),
        Condition::Or(a, b) => check_refs(a, names) && check_refs(b, names),
        _ => true,
    }
}

/// Reads the detection section from its YAML value.
#[verifier::loop_isolation(false)]
pub fn read_detection(v: FieldValue) -> (res: Result<Detection, RuleError>)
    ensures
        match res {
            Ok(d) => detection_reads(d, v),
            Err(e) => !detection_ok(v) && fault_of(e) == detection_fault(v)
                && field_text_is(e, detection_field_text(v)),
        },
{
    let ghost v0 = v;
    match v {
        FieldValue::Mapping(es) => {
            let ghost es0 = es@;
            let ckey = "condition".to_owned();
            let condition = match lookup_map(&es, &ckey) {
                Some(FieldValue::Text(c)) => match parse_condition(c.as_str()) {
                    Some(cond) => cond,
                    None => {
                        return Err(RuleError::InvalidCondition(c.clone()));
                    },
                },
                _ => {
                    return Err(RuleError::InvalidRule("detection.condition".to_owned()));
                },
            };
            let mut selections: Vec<(String, Selection)> = Vec::new();
            let mut names: Vec<String> = Vec::new();
            for e in it: es.into_iter()
                invariant
                    it.seq() == es0,
                    selections@.len() == selection_entries(es0.take(it.index() as int)).len(),
                    names@.len() == selections@.len(),
                    forall|i: int| 0 <= i < selections@.len() ==> (#[trigger] selections@[i]).0@
                        == key_text(selection_entries(es0.take(it.index() as int))[i].0)
                        && selection_reads(selections@[i].1, selection_entries(es0.take(it.index() as int))[i].1)
                        && names@[i]@ == selections@[i].0@,
                    forall|i: int| 0 <= i < selections@.len() ==> selection_entry_ok(
                        #[trigger] selection_entries(es0.take(it.index() as int))[i]),
            {
                let ghost idx = it.index() as int;
                let ghost before = selection_entries(es0.take(idx));
                assert(es0.take(idx + 1).drop_last() =~= es0.take(idx));
                assert(es0.take(idx + 1).last() == es0[idx]);
                let (k, sv) = e;
                match k {
                    FieldValue::Text(name) => {
                        if name == ckey {
                            assert(selection_entries(es0.take(idx + 1)) == before);
                        } else {
                            assert(selection_entries(es0.take(idx + 1)) == before.push(es0[idx]));
                            match read_selection(&name, sv) {
                                Ok(s) => {
                                    names.push(name.clone());
                                    selections.push((name, s));
                                },
                                Err(err) => {
                                    proof {
                                        lemma_selection_entries_keep(es0, idx + 1);
                                        assert(selection_entries(es0.take(idx + 1))[before.len() as int] == es0[idx]);
                                        assert(selection_entries(es0)[before.len() as int] == es0[idx]);
                                        assert forall|j: int| 0 <= j < before.len() implies
                                            selection_entry_ok(#[trigger] selection_entries(es0)[j]) by {
                                            assert(selection_entries(es0.take(idx + 1))[j] == before[j]);
                                        }
                                        lemma_first_bad_selection(selection_entries(es0), before.len() as int);
                                    }
                                    return Err(err);
                                },
                            }
                        }
                    },
                    _ => {
                        assert(selection_entries(es0.take(idx + 1)) == before.push(es0[idx]));
                        proof {
                            lemma_selection_entries_keep(es0, idx + 1);
                            assert(selection_entries(es0.take(idx + 1))[before.len() as int] == es0[idx]);
                            assert(selection_entries(es0)[before.len() as int] == es0[idx]);
                            assert forall|j: int| 0 <= j < before.len() implies
                                selection_entry_ok(#[trigger] selection_entries(es0)[j]) by {
                                assert(selection_entries(es0.take(idx + 1))[j] == before[j]);
                            }
                            lemma_first_bad_selection(selection_entries(es0), before.len() as int);
                            assert(!(es0[idx].0 is Text));
                            assert(condition_entry(es0) is Some);
                            assert(map_lookup(es0, "condition"@) matches Some(FieldValue::Text(c)) && condition_of_text(c@) is Some);
                            assert(first_bad_selection(selection_entries(es0), before.len() as int));
                            assert(detection_fault(v0) == Fault::Shape);
                        }
                        return Err(RuleError::InvalidRule("detection".to_owned()));
                    },
                }
            }
            assert(es0.take(es0.len() as int) =~= es0);
            assert forall|i: int| 0 <= i < names@.len() implies name_views(names@)[i]
                == entry_names(selection_entries(es0))[i] by {
                assert(selections@[i].0@ == key_text(selection_entries(es0)[i].0));
            }
            assert(name_views(names@) =~= entry_names(selection_entries(es0)));
            if !check_refs(&condition, &names) {
                assert(!exists|i: int| first_bad_selection(selection_entries(es0), i));
                return Err(RuleError::InvalidCondition("a selection that the condition names does not exist".to_owned()));
            }
            Ok(Detection { selections, condition })
        },
        _ => Err(RuleError::InvalidRule("detection".to_owned())),
    }
}

/// The selection entries of a prefix of `es` are a prefix of those of `es`.
proof fn lemma_selection_entries_keep(es: Seq<(FieldValue, FieldValue)>, n: int)
    requires
        0 <= n <= es.len(),
    ensures
        selection_entries(es.take(n)).len() <= selection_entries(es).len(),
        forall|i: int| 0 <= i < selection_entries(es.take(n)).len() ==>
            #[trigger] selection_entries(es.take(n))[i] == selection_entries(es)[i],
    decreases es.len() - n,
{
    if n == es.len() {
        assert(es.take(n) =~= es);
    } else {
        lemma_selection_entries_keep(es, n + 1);
        assert(es.take(n + 1).drop_last() =~= es.take(n));
        let a = selection_entries(es.take(n));
        let b = selection_entries(es.take(n + 1));
        assert forall|i: int| 0 <= i < a.len() implies #[trigger] a[i] == selection_entries(es)[i] by {
            assert(a[i] == b[i]);
        }
    }
}

} // verus!

verus! {

/// Where the events that a rule is meant for come from.
pub struct LogSource {
    pub category: Option<String>,
    pub product: Option<String>,
    pub service: Option<String>,
}

/// A Sigma detection rule.
pub struct Rule {
    pub title: String,
    pub id: Option<String>,
    pub name: Option<String>,
    pub status: Option<String>,
    pub description: Option<String>,
    pub author: Option<String>,
    pub level: Option<String>,
    pub tags: Vec<String>,
    pub logsource: LogSource,
    pub detection: Detection,
    /// The other entries of the rule whose key is a string, in the order of the rule.
    pub custom_fields: Vec<(String, FieldValue)>,
}

/// The keys of a rule that are read into its own fields.
pub open spec fn is_known_key(k: Seq<char>) -> bool {
    ||| k == "title"@
    ||| k == "id"@
    ||| k == "name"@
    ||| k == "status"@
    ||| k == "description"@
    ||| k == "author"@
    ||| k == "level"@
    ||| k == "tags"@
    ||| k == "logsource"@
    ||| k == "detection"@
}

/// An entry of a rule that goes to its custom fields: a string key that is not a known one.
pub open spec fn is_custom(e: (FieldValue, FieldValue)) -> bool {
    e.0 matches FieldValue::Text(k) && !is_known_key(k@)
}

/// The entries of the mapping that go to the custom fields, in order.
pub open spec fn custom_entries(es: Seq<(FieldValue, FieldValue)>) -> Seq<(FieldValue, FieldValue)>
    decreases es.len(),
{
    if es.len() == 0 {
        Seq::empty()
    } else {
        let sub = custom_entries(es.drop_last());
        if is_custom(es.last()) { sub.push(es.last()) } else { sub }
    }
}

/// The custom field `f` holds the entry `e`, its key as a string.
pub open spec fn custom_field_reads(f: (String, FieldValue), e: (FieldValue, FieldValue)) -> bool {
    text_reads(f.0, e.0) && f.1 == e.1
}

/// `cf` holds the custom entries of the mapping `es`, in order.
pub open spec fn custom_reads(cf: Seq<(String, FieldValue)>, es: Seq<(FieldValue, FieldValue)>) -> bool {
    let ce = custom_entries(es);
    &&& cf.len() == ce.len()
    &&& forall|k: int| 0 <= k < cf.len() ==> custom_field_reads(#[trigger] cf[k], ce[k])
}

/// Taking out an entry that is not custom leaves the custom entries as they are.
proof fn lemma_custom_remove(es: Seq<(FieldValue, FieldValue)>, i: int)
    requires
        0 <= i < es.len(),
        !is_custom(es[i]),
    ensures
        custom_entries(es.remove(i)) == custom_entries(es),
    decreases es.len(),
{
    if i == es.len() - 1 {
        assert(es.remove(i) =~= es.drop_last());
    } else {
        lemma_custom_remove(es.drop_last(), i);
        assert(es.remove(i).drop_last() =~= es.drop_last().remove(i));
        assert(es.remove(i).last() == es.last());
    }
}

/// Two mappings with the same custom entries are read the same.
proof fn lemma_custom_reads_same(cf: Seq<(String, FieldValue)>, a: Seq<(FieldValue, FieldValue)>, b: Seq<(FieldValue, FieldValue)>)
    requires
        custom_reads(cf, a),
        custom_entries(a) == custom_entries(b),
    ensures
        custom_reads(cf, b),
{

}

/// Whether the key is one that the rule reads into its own fields (see [`is_known_key`]).
fn known_key(k: &String) -> (res: bool)
    ensures
        res == is_known_key(k@),
{
    *k == "title".to_owned() || *k == "id".to_owned() || *k == "name".to_owned()
        || *k == "status".to_owned() || *k == "description".to_owned() || *k == "author".to_owned()
        || *k == "level".to_owned() || *k == "tags".to_owned() || *k == "logsource".to_owned()
        || *k == "detection".to_owned()
}

/// The custom entries of the mapping (see [`custom_reads`]).
fn take_custom(es: Vec<(FieldValue, FieldValue)>) -> (res: Vec<(String, FieldValue)>)
    ensures
        custom_reads(res@, es@),
{
    let ghost all = es@;
    let mut cf: Vec<(String, FieldValue)> = Vec::new();
    assert(all.take(0) =~= Seq::<(FieldValue, FieldValue)>::empty());
    for e in it: es.into_iter()
        invariant
            it.seq() == all,
            custom_reads(cf@, all.take(it.index() as int)),
    {
        let ghost k = it.index() as int;
        assert(all.take(k + 1).drop_last() =~= all.take(k));
        assert(all.take(k + 1).last() == e);
        let ghost prev = cf@;
        let ghost ce = custom_entries(all.take(k));
        let (key, value) = e;
        match key {
            FieldValue::Text(t) => {
                if !known_key(&t) {
                    cf.push((t, value));
                    assert(custom_entries(all.take(k + 1)) == ce.push(e));
                    assert forall|q: int| 0 <= q < cf@.len() implies custom_field_reads(#[trigger] cf@[q], custom_entries(all.take(k + 1))[q]) by {
                        if q < prev.len() {
                            assert(cf@[q] == prev[q]);
                        }
                    }
                } else {
                    assert(custom_entries(all.take(k + 1)) == ce);
                    proof {
                        lemma_custom_reads_same(cf@, all.take(k), all.take(k + 1));
                    }
                }
            },
            _ => {
                assert(custom_entries(all.take(k + 1)) == ce);
                proof {
                    lemma_custom_reads_same(cf@, all.take(k), all.take(k + 1));
                }
            },
        }
    }
    assert(all.take(all.len() as int) =~= all);
    cf
}

/// An optional string entry: absent, null or a string.
pub open spec fn opt_text_ok(v: Option<FieldValue>) -> bool {
    match v {
        None => true,
        Some(FieldValue::Null) => true,
        Some(FieldValue::Text(_)) => true,
        _ => false,
    }
}

/// `o` is what the optional string entry `v` reads as.
pub open spec fn opt_text_reads(o: Option<String>, v: Option<FieldValue>) -> bool {
    match (o, v) {
        (None, None) => true,
        (None, Some(FieldValue::Null)) => true,
        (Some(s), Some(FieldValue::Text(t))) => s@ == t@,
        _ => false,
    }
}

/// The value is a string.
pub open spec fn is_text(v: FieldValue) -> bool {
    v is Text
}

/// The string `s` holds the text of the string value `v`.
pub open spec fn text_reads(s: String, v: FieldValue) -> bool {
    match v {
        FieldValue::Text(t) => s@ == t@,
        _ => false,
    }
}

/// The `tags` entry: absent, null or a list of strings.
pub open spec fn tags_ok(v: Option<FieldValue>) -> bool {
    match v {
        None => true,
        Some(FieldValue::Null) => true,
        Some(FieldValue::Sequence(items)) => forall|i: int| 0 <= i < items@.len() ==> is_text(#[trigger] items@[i]),
        _ => false,
    }
}

/// `tags` is what the `tags` entry reads as.
pub open spec fn tags_reads(tags: Seq<String>, v: Option<FieldValue>) -> bool {
    &&& tags_ok(v)
    &&& match v {
        Some(FieldValue::Sequence(items)) => tags.len() == items@.len() && forall|i: int| 0 <= i < tags.len()
            ==> text_reads(#[trigger] tags[i], items@[i]),
        _ => tags.len() == 0,
    }
}

/// The `logsource` entry: absent, null, or a mapping whose `category`, `product` and
/// `service` are optional strings.
pub open spec fn logsource_ok(v: Option<FieldValue>) -> bool {
    match v {
        None => true,
        Some(FieldValue::Null) => true,
        Some(FieldValue::Mapping(es)) => opt_text_ok(map_lookup(es@, "category"@)) && opt_text_ok(
            map_lookup(es@, "product"@),
        ) && opt_text_ok(map_lookup(es@, "service"@)),
        _ => false,
    }
}

/// `ls` is what the `logsource` entry reads as.
pub open spec fn logsource_reads(ls: LogSource, v: Option<FieldValue>) -> bool {
    &&& logsource_ok(v)
    &&& match v {
        Some(FieldValue::Mapping(es)) => opt_text_reads(ls.category, map_lookup(es@, "category"@))
            && opt_text_reads(ls.product, map_lookup(es@, "product"@)) && opt_text_reads(
            ls.service,
            map_lookup(es@, "service"@),
        ),
        _ => ls.category is None && ls.product is None && ls.service is None,
    }
}

/// Whether the YAML tree reads as a rule: a mapping with a string `title`, optional string
/// `id`, `name`, `status`, `description`, `author` and `level`, optional `tags` and
/// `logsource`, and a `detection` section. Other entries are kept as custom fields.
pub open spec fn rule_ok(tree: FieldValue) -> bool {
    match tree {
        FieldValue::Mapping(es) => {
            &&& map_lookup(es@, "title"@) matches Some(FieldValue::Text(_))
            &&& opt_text_ok(map_lookup(es@, "id"@))
            &&& opt_text_ok(map_lookup(es@, "name"@))
            &&& opt_text_ok(map_lookup(es@, "status"@))
            &&& opt_text_ok(map_lookup(es@, "description"@))
            &&& opt_text_ok(map_lookup(es@, "author"@))
            &&& opt_text_ok(map_lookup(es@, "level"@))
            &&& tags_ok(map_lookup(es@, "tags"@))
            &&& logsource_ok(map_lookup(es@, "logsource"@))
            &&& map_lookup(es@, "detection"@) matches Some(d)
            &&& detection_ok(d)
        },
        _ => false,
    }
}

/// The fault of a tree that does not read as a rule: a fault of its shape, unless all but
/// its detection section reads, in which case it is the fault of that section.
pub open spec fn rule_fault(tree: FieldValue) -> Fault {
    match tree {
        FieldValue::Mapping(es) => {
            if map_lookup(es@, "title"@) matches Some(FieldValue::Text(_))
                && opt_text_ok(map_lookup(es@, "id"@))
                && opt_text_ok(map_lookup(es@, "name"@))
                && opt_text_ok(map_lookup(es@, "status"@))
                && opt_text_ok(map_lookup(es@, "description"@))
                && opt_text_ok(map_lookup(es@, "author"@))
                && opt_text_ok(map_lookup(es@, "level"@))
                && tags_ok(map_lookup(es@, "tags"@))
                && logsource_ok(map_lookup(es@, "logsource"@))
                && map_lookup(es@, "detection"@) is Some {
                detection_fault(map_lookup(es@, "detection"@)->0)
            } else {
                Fault::Shape
            }
        },
        _ => Fault::Shape,
    }
}

/// The message of a field error in a tree that does not read as a rule: that of its
/// detection section.
pub open spec fn rule_field_text(tree: FieldValue) -> Seq<char> {
    match tree {
        FieldValue::Mapping(es) => match map_lookup(es@, "detection"@) {
            Some(d) => detection_field_text(d),
            None => Seq::empty(),
        },
        _ => Seq::empty(),
    }
}

/// `r` is what the YAML tree reads as (see [`rule_ok`]).
pub open spec fn rule_reads(r: Rule, tree: FieldValue) -> bool {
    &&& rule_ok(tree)
    &&& match tree {
        FieldValue::Mapping(es) => {
            &&& map_lookup(es@, "title"@) matches Some(t) && text_reads(r.title, t)
            &&& opt_text_reads(r.id, map_lookup(es@, "id"@))
            &&& opt_text_reads(r.name, map_lookup(es@, "name"@))
            &&& opt_text_reads(r.status, map_lookup(es@, "status"@))
            &&& opt_text_reads(r.description, map_lookup(es@, "description"@))
            &&& opt_text_reads(r.author, map_lookup(es@, "author"@))
            &&& opt_text_reads(r.level, map_lookup(es@, "level"@))
            &&& tags_reads(r.tags@, map_lookup(es@, "tags"@))
            &&& logsource_reads(r.logsource, map_lookup(es@, "logsource"@))
            &&& map_lookup(es@, "detection"@) matches Some(d) && detection_reads(r.detection, d)
            &&& custom_reads(r.custom_fields@, es@)
        },
        _ => false,
    }
}

/// Reads the optional string entry `key` of the mapping `es`.
pub fn read_opt_text(es: &Vec<(FieldValue, FieldValue)>, key: &str) -> (res: Result<Option<String>, RuleError>)
    ensures
        match res {
            Ok(o) => opt_text_reads(o, map_lookup(es@, key@)),
            Err(e) => !opt_text_ok(map_lookup(es@, key@)) && fault_of(e) == Fault::Shape,
        },
{
    let k = key.to_owned();
    match lookup_map(es, &k) {
        None => Ok(None),
        Some(FieldValue::Null) => Ok(None),
        Some(FieldValue::Text(t)) => Ok(Some(t.clone())),
        _ => Err(RuleError::InvalidRule(k)),
    }
}

/// Reads the `tags` entry of the mapping `es`.
#[verifier::loop_isolation(false)]
pub fn read_tags(es: &Vec<(FieldValue, FieldValue)>) -> (res: Result<Vec<String>, RuleError>)
    ensures
        match res {
            Ok(t) => tags_reads(t@, map_lookup(es@, "tags"@)),
            Err(e) => !tags_ok(map_lookup(es@, "tags"@)) && fault_of(e) == Fault::Shape,
        },
{
    let k = "tags".to_owned();
    let mut tags: Vec<String> = Vec::new();
    match lookup_map(es, &k) {
        None => Ok(tags),
        Some(FieldValue::Null) => Ok(tags),
        Some(FieldValue::Sequence(items)) => {
            let mut i: usize = 0;
            while i < items.len()
                invariant
                    0 <= i <= items@.len(),
                    tags@.len() == i,
                    forall|j: int| 0 <= j < i ==> is_text(#[trigger] items@[j]),
                    forall|j: int| 0 <= j < i ==> text_reads(#[trigger] tags@[j], items@[j]),
                decreases items@.len() - i,
            {
                match &items[i] {
                    FieldValue::Text(t) => {
                        tags.push(t.clone());
                    },
                    _ => {
                        assert(!is_text(items@[i as int]));
                        return Err(RuleError::InvalidRule(k));
                    },
                }
                i = i + 1;
            }
            Ok(tags)
        },
        _ => Err(RuleError::InvalidRule(k)),
    }
}

/// Reads the `logsource` entry of the mapping `es`.
fn read_logsource(es: &Vec<(FieldValue, FieldValue)>) -> (res: Result<LogSource, RuleError>)
    ensures
        match res {
            Ok(ls) => logsource_reads(ls, map_lookup(es@, "logsource"@)),
            Err(e) => !logsource_ok(map_lookup(es@, "logsource"@)) && fault_of(e) == Fault::Shape,
        },
{
    let k = "logsource".to_owned();
    match lookup_map(es, &k) {
        None => Ok(LogSource { category: None, product: None, service: None }),
        Some(FieldValue::Null) => Ok(LogSource { category: None, product: None, service: None }),
        Some(FieldValue::Mapping(inner)) => {
            let category = read_opt_text(inner, "category")?;
            let product = read_opt_text(inner, "product")?;
            let service = read_opt_text(inner, "service")?;
            Ok(LogSource { category, product, service })
        },
        _ => Err(RuleError::InvalidRule(k)),
    }
}

/// Reads a rule from its YAML tree (see [`rule_reads`]).
pub fn rule_from_value(tree: FieldValue) -> (res: Result<Rule, RuleError>)
    ensures
        match res {
            Ok(r) => rule_reads(r, tree),
            Err(e) => !rule_ok(tree) && fault_of(e) == rule_fault(tree) && field_text_is(e, rule_field_text(tree)),
        },
{
    let ghost t0 = tree;
    match tree {
        FieldValue::Mapping(mut es) => {
            let ghost es0 = es@;
            let tk = "title".to_owned();
            let title = match lookup_map(&es, &tk) {
                Some(FieldValue::Text(t)) => t.clone(),
                _ => {
                    return Err(RuleError::InvalidRule(tk));
                },
            };
            let id = read_opt_text(&es, "id")?;
            let name = read_opt_text(&es, "name")?;
            let status = read_opt_text(&es, "status")?;
            let description = read_opt_text(&es, "description")?;
            let author = read_opt_text(&es, "author")?;
            let level = read_opt_text(&es, "level")?;
            let tags = read_tags(&es)?;
            let logsource = read_logsource(&es)?;
            let dk = "detection".to_owned();
            match find_key(&es, &dk) {
                Some(i) => {
                    let ghost before = es@;
                    let (_k, dv) = es.remove(i);
                    proof {
                        lemma_custom_remove(before, i as int);
                    }
                    let detection = read_detection(dv)?;
                    let custom_fields = take_custom(es);
                    Ok(Rule { title, id, name, status, description, author, level, tags, logsource, detection, custom_fields })
                },
                None => Err(RuleError::InvalidRule(dk)),
            }
        },
        _ => Err(RuleError::InvalidRule("the rule is not a mapping".to_owned())),
    }
}

} // verus!

verus! {

/// The names of the selections.
pub open spec fn selection_names(s: Seq<(String, Selection)>) -> Seq<Seq<char>> {
    Seq::new(s.len(), |i: int| s[i].0@)
}

/// Whether each selection holds for the event.
pub open spec fn selection_results(s: Seq<(String, Selection)>, event: Seq<(String, FieldValue)>) -> Seq<bool> {
    Seq::new(s.len(), |i: int| selection_holds(s[i].1, event))
}

/// Whether the rule matches the event: its condition holds, given which of its selections
/// hold for the event.
pub open spec fn rule_holds(r: Rule, event: Seq<(String, FieldValue)>) -> bool {
    cond_holds(
        r.detection.condition@,
        selection_names(r.detection.selections@),
        selection_results(r.detection.selections@, event),
    )
}

impl Rule {
    /// Whether the rule matches the event (see [`rule_holds`]).
    pub fn is_match(&self, event: &Event) -> (res: bool)
        ensures
            res == rule_holds(*self, event.fields@),
    {
        let sels = &self.detection.selections;
        let mut names: Vec<String> = Vec::new();
        let mut results: Vec<bool> = Vec::new();
        let mut i: usize = 0;
        while i < sels.len()
            invariant
                0 <= i <= sels@.len(),
                names@.len() == i,
                results@.len() == i,
                forall|j: int| 0 <= j < i ==> (#[trigger] names@[j])@ == sels@[j].0@,
                forall|j: int| 0 <= j < i ==> #[trigger] results@[j] == selection_holds(sels@[j].1, event.fields@),
            decreases sels@.len() - i,
        {
            names.push(sels[i].0.clone());
            results.push(sels[i].1.holds(event));
            i = i + 1;
        }
        assert(name_views(names@) =~= selection_names(sels@));
        assert(results@ =~= selection_results(sels@, event.fields@));
        self.detection.condition.eval(&names, &results)
    }
}

} // verus!
