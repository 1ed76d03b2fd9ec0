//! Properties of the library as a whole, proved over the specifications that the contracts
//! of its functions use.
use vstd::prelude::*;
use crate::condition::{
    cond_holds, cond_tokens, condition_of_text, is_delim, is_reserved, kw_and, kw_or, parse_condition_spec, word_len, CondSpec,
    TokSpec,
};
use crate::correlation::{condition_holds, CorrelationCondition};
use crate::correlation_reader::section_reads;
use crate::detection::{keyword_hits, keyword_hits_value};
use crate::engine::{is_first_ref, ref_index, refers_to};
use crate::event::map_lookup;
use crate::correlation::{section_outcomes, section_span, CorrelationSection, CorrelationType, TimestampedEvent};
use crate::engine::{
    count_upto, counting_outcomes, new_value_in_slot, observation, observations, slot_size, slot_values, earliest_in_slot, new_rule_in_slot, same_slot, slot_chain, slot_progress, slot_rules,
    temporal_outcomes, Obs,
};
use crate::backends::lowercase;
use crate::backends::{ascii_lower, b64_digit, base64_of, is_ascii_text};
use crate::encoding::{encoded_patterns, offset_variant, spaces};
use crate::detection::{text_matches, field_rule_holds, value_accepts, FieldRule, MatchKind, Modifiers, Selection, selection_holds};
use crate::text::split_on;
use crate::wildcard::{glob_match, glob_step, glob_tokens, GlobToken};
use crate::event::{event_resolve, field_lookup, FieldValue};
use crate::rule::{
    apply_modifier, char_fold_eq, ci_eq, field_rule_ok, field_rule_reads, fold_modifiers, modifiers_ok, plain_modifiers, rule_holds, selection_names,
    selection_results, Rule,
};

verus! {

/// `neq` plays no part in how one value compares with the event's value.
proof fn lemma_accepts_ignores_neq(
    a: Modifiers,
    b: Modifiers,
    rv: FieldValue,
    ev: Option<FieldValue>,
    event: Seq<(String, FieldValue)>,
)
    requires
        a == (Modifiers { neq: true, ..b }),
    ensures
        value_accepts(a, rv, ev, event) == value_accepts(b, rv, ev, event),
{
    match rv {
        FieldValue::Text(p) => {
            assert(encoded_patterns(a, p@) == encoded_patterns(b, p@));
            assert forall|q: Seq<char>, v: Seq<char>| text_matches(a, q, v) == text_matches(b, q, v) by {}
        },
        _ => {},
    }
}

/// `neq` negates the whole comparison of a field condition: with `neq` it holds exactly
/// where the same condition without `neq` does not. With a list of values this makes the
/// field differ from all of them, and with `all` it makes the field fail one of them.
pub proof fn law_neq_negates(negated: FieldRule, plain: FieldRule, event: Seq<(String, FieldValue)>)
    requires
        negated.field@ == plain.field@,
        negated.values@ == plain.values@,
        negated.modifiers == (Modifiers { neq: true, ..plain.modifiers }),
        !plain.modifiers.neq,
    ensures
        field_rule_holds(negated, event) == !field_rule_holds(plain, event),
{
    let ev = event_resolve(event, plain.field@);
    assert forall|i: int| 0 <= i < plain.values@.len() implies
        value_accepts(negated.modifiers, #[trigger] plain.values@[i], ev, event)
            == value_accepts(plain.modifiers, plain.values@[i], ev, event) by {
        lemma_accepts_ignores_neq(negated.modifiers, plain.modifiers, plain.values@[i], ev, event);
    }
    if plain.modifiers.all {
        if field_rule_holds(plain, event) {
            assert forall|i: int| 0 <= i < negated.values@.len() implies
                value_accepts(negated.modifiers, #[trigger] negated.values@[i], ev, event) by {
                assert(value_accepts(plain.modifiers, plain.values@[i], ev, event));
            }
        } else {
            let i = choose|i: int| 0 <= i < plain.values@.len()
                && !value_accepts(plain.modifiers, #[trigger] plain.values@[i], ev, event);
            assert(!value_accepts(negated.modifiers, negated.values@[i], ev, event));
        }
    } else {
        if field_rule_holds(plain, event) {
            let i = choose|i: int| 0 <= i < plain.values@.len()
                && value_accepts(plain.modifiers, #[trigger] plain.values@[i], ev, event);
            assert(value_accepts(negated.modifiers, negated.values@[i], ev, event));
        } else {
            assert forall|i: int| 0 <= i < negated.values@.len() implies
                !value_accepts(negated.modifiers, #[trigger] negated.values@[i], ev, event) by {
                assert(!value_accepts(plain.modifiers, plain.values@[i], ev, event));
            }
        }
    }
}

/// The field condition of a selection that holds exactly one, in one group.
pub open spec fn lone_field_rule(s: Selection) -> Option<FieldRule> {
    match s {
        Selection::Fields(gs) => if gs@.len() == 1 && gs@[0]@.len() == 1 {
            Some(gs@[0]@[0])
        } else {
            None
        },
        _ => None,
    }
}

/// A selection made of one field condition holds exactly where that condition does.
proof fn lemma_lone_selection(s: Selection, r: FieldRule, event: Seq<(String, FieldValue)>)
    requires
        lone_field_rule(s) == Some(r),
    ensures
        selection_holds(s, event) == field_rule_holds(r, event),
{
    match s {
        Selection::Fields(gs) => {
            if field_rule_holds(r, event) {
                assert(gs@[0]@[0] == r);
                assert(crate::detection::group_holds(gs@[0]@, event));
            }
        },
        _ => {},
    }
}

/// A rule whose only selection is one field condition, and whose condition is that
/// selection alone.
pub open spec fn lone_rule(r: Rule, cond: FieldRule) -> bool {
    &&& r.detection.selections@.len() == 1
    &&& lone_field_rule(r.detection.selections@[0].1) == Some(cond)
    &&& r.detection.condition@ == CondSpec::Selection(r.detection.selections@[0].0@)
}

/// A rule whose only selection is one field condition, and whose condition is `not` that
/// selection.
pub open spec fn lone_negated_rule(r: Rule, cond: FieldRule) -> bool {
    &&& r.detection.selections@.len() == 1
    &&& lone_field_rule(r.detection.selections@[0].1) == Some(cond)
    &&& r.detection.condition@ == CondSpec::Not(Box::new(CondSpec::Selection(r.detection.selections@[0].0@)))
}

/// The truth of `selection` where the only selection is named `n` and has the outcome `b`.
proof fn lemma_single_selection(n: Seq<char>, names: Seq<Seq<char>>, results: Seq<bool>)
    requires
        names.len() == 1,
        results.len() == 1,
        names[0] == n,
    ensures
        cond_holds(CondSpec::Selection(n), names, results) == results[0],
{
    if results[0] {
        assert(names[0] == n && results[0]);
    }
}

/// `field|neq: value` in a selection matches the same events as `not` on a selection that
/// holds `field: value`, a missing field included.
pub proof fn law_neq_is_condition_not(
    with_neq: Rule,
    neq_cond: FieldRule,
    with_not: Rule,
    plain_cond: FieldRule,
    event: Seq<(String, FieldValue)>,
)
    requires
        lone_rule(with_neq, neq_cond),
        lone_negated_rule(with_not, plain_cond),
        neq_cond.field@ == plain_cond.field@,
        neq_cond.values@ == plain_cond.values@,
        neq_cond.modifiers == (Modifiers { neq: true, ..plain_cond.modifiers }),
        !plain_cond.modifiers.neq,
    ensures
        rule_holds(with_neq, event) == rule_holds(with_not, event),
{
    law_neq_negates(neq_cond, plain_cond, event);
    let s1 = with_neq.detection.selections@;
    let s2 = with_not.detection.selections@;
    lemma_lone_selection(s1[0].1, neq_cond, event);
    lemma_lone_selection(s2[0].1, plain_cond, event);
    let names1 = selection_names(s1);
    let names2 = selection_names(s2);
    let res1 = selection_results(s1, event);
    let res2 = selection_results(s2, event);
    lemma_single_selection(s1[0].0@, names1, res1);
    lemma_single_selection(s2[0].0@, names2, res2);
}

/// A missing field differs from every value: a negated field condition (other than
/// `exists`, which cannot be negated) holds for an event that lacks the field.
pub proof fn law_neq_missing_field(r: FieldRule, event: Seq<(String, FieldValue)>)
    requires
        r.modifiers.neq,
        modifiers_ok(r.modifiers),
        r.values@.len() > 0,
        event_resolve(event, r.field@) is None,
    ensures
        field_rule_holds(r, event),
{
    let ev = event_resolve(event, r.field@);
    assert forall|i: int| 0 <= i < r.values@.len() implies
        !value_accepts(r.modifiers, #[trigger] r.values@[i], ev, event) by {}
    assert(!value_accepts(r.modifiers, r.values@[0], ev, event));
}

/// A missing `fieldref` target differs from the field: a negated `fieldref` condition holds
/// when none of the fields it names is in the event.
pub proof fn law_fieldref_neq_missing_target(r: FieldRule, event: Seq<(String, FieldValue)>)
    requires
        r.modifiers.neq,
        r.modifiers.kind == MatchKind::FieldRef,
        r.values@.len() > 0,
        forall|i: int| 0 <= i < r.values@.len() ==> (#[trigger] r.values@[i] matches FieldValue::Text(t)
            && event_resolve(event, t@) is None),
    ensures
        field_rule_holds(r, event),
{
    let ev = event_resolve(event, r.field@);
    assert forall|i: int| 0 <= i < r.values@.len() implies
        !value_accepts(r.modifiers, #[trigger] r.values@[i], ev, event) by {}
    assert(!value_accepts(r.modifiers, r.values@[0], ev, event));
}

/// `exists` stands alone: a field condition whose modifiers combine `exists` with `neq` is
/// rejected, whatever its values.
pub proof fn law_exists_cannot_be_negated(key: Seq<char>, v: FieldValue, m: Modifiers)
    requires
        fold_modifiers(plain_modifiers(), split_on(key, '|').skip(1)) == Some(m),
        m.kind == MatchKind::Exists,
        m.neq,
    ensures
        !field_rule_ok(key, v),
{
}

/// Values are compared strictly by type: a plain condition `field: n` on an integer `n`
/// holds exactly when the field holds the integer `n`, so never for the string of its
/// digits.
pub proof fn law_strict_integer(r: FieldRule, n: i128, event: Seq<(String, FieldValue)>)
    requires
        r.modifiers == plain_modifiers(),
        r.values@ == seq![FieldValue::Int(n)],
    ensures
        field_rule_holds(r, event) <==> event_resolve(event, r.field@) == Some(FieldValue::Int(n)),
{
    let ev = event_resolve(event, r.field@);
    if field_rule_holds(r, event) {
        let i = choose|i: int| 0 <= i < r.values@.len() && value_accepts(r.modifiers, #[trigger] r.values@[i], ev, event);
        assert(i == 0);
    } else {
        assert(!value_accepts(r.modifiers, r.values@[0], ev, event));
    }
}

/// A field whose name contains a dot takes precedence over a nested field of the same path.
pub proof fn law_dotted_name_wins(event: Seq<(String, FieldValue)>, name: Seq<char>, v: FieldValue)
    requires
        field_lookup(event, name) == Some(v),
    ensures
        event_resolve(event, name) == Some(v),
{
}

} // verus!

verus! {

/// No character of `s` is an ASCII capital letter.
pub open spec fn no_upper(s: Seq<char>) -> bool {
    forall|i: int| 0 <= i < s.len() ==> !('A' <= #[trigger] s[i] && s[i] <= 'Z')
}

/// Two words that differ at one position, up to ASCII case, are not the same word.
proof fn lemma_ci_differs(w: Seq<char>, kw: Seq<char>, i: int)
    requires
        0 <= i < w.len(),
        !char_fold_eq(w[i], kw[i]),
    ensures
        !ci_eq(w, kw),
{
}

/// A word equals itself up to ASCII case.
proof fn lemma_ci_self(w: Seq<char>)
    ensures
        ci_eq(w, w),
{
}

/// A word that equals the word `x` up to ASCII case equals another word `k` up to case
/// exactly when `x` does, where neither `x` nor `k` has a capital letter.
proof fn lemma_ci_eq_same(w: Seq<char>, x: Seq<char>, k: Seq<char>)
    requires
        ci_eq(w, x),
        no_upper(x),
        no_upper(k),
    ensures
        ci_eq(w, k) == ci_eq(x, k),
{
    if ci_eq(w, k) {
        assert forall|i: int| 0 <= i < x.len() implies char_fold_eq(#[trigger] x[i], k[i]) by {
            assert(char_fold_eq(w[i], x[i]));
            assert(char_fold_eq(w[i], k[i]));
            assert(!('A' <= x[i] && x[i] <= 'Z'));
            assert(!('A' <= k[i] && k[i] <= 'Z'));
            if w[i] == x[i] {
                assert(w[i] == k[i]);
            } else {
                assert((w[i] as u32) + 32 == (x[i] as u32));
                assert((w[i] as u32) + 32 == (k[i] as u32));
                assert((x[i] as u32) == (k[i] as u32));
                vstd::utf8::char_u32_cast(x[i], x[i] as u32);
                vstd::utf8::char_u32_cast(k[i], k[i] as u32);
            }
            assert(x[i] == k[i]);
        }
    }
    if ci_eq(x, k) {
        assert forall|i: int| 0 <= i < w.len() implies char_fold_eq(#[trigger] w[i], k[i]) by {
            assert(char_fold_eq(w[i], x[i]));
            assert(char_fold_eq(x[i], k[i]));
            assert(!('A' <= x[i] && x[i] <= 'Z'));
        }
    }
}

/// The names of the modifiers have no capital letter.
proof fn lemma_names_lowercase()
    ensures
        no_upper("contains"@),
        no_upper("startswith"@),
        no_upper("endswith"@),
        no_upper("re"@),
        no_upper("cidr"@),
        no_upper("gt"@),
        no_upper("gte"@),
        no_upper("lt"@),
        no_upper("lte"@),
        no_upper("exists"@),
        no_upper("fieldref"@),
        no_upper("all"@),
        no_upper("cased"@),
        no_upper("neq"@),
        no_upper("windash"@),
        no_upper("i"@),
        no_upper("m"@),
        no_upper("s"@),
        no_upper("base64"@),
        no_upper("base64offset"@),
        no_upper("wide"@),
        no_upper("utf16le"@),
        no_upper("utf16be"@),
        no_upper("utf16"@),
{
    reveal_strlit("contains");
    reveal_strlit("startswith");
    reveal_strlit("endswith");
    reveal_strlit("re");
    reveal_strlit("cidr");
    reveal_strlit("gt");
    reveal_strlit("gte");
    reveal_strlit("lt");
    reveal_strlit("lte");
    reveal_strlit("exists");
    reveal_strlit("fieldref");
    reveal_strlit("all");
    reveal_strlit("cased");
    reveal_strlit("neq");
    reveal_strlit("windash");
    reveal_strlit("i");
    reveal_strlit("m");
    reveal_strlit("s");
    reveal_strlit("base64");
    reveal_strlit("base64offset");
    reveal_strlit("wide");
    reveal_strlit("utf16le");
    reveal_strlit("utf16be");
    reveal_strlit("utf16");
}

/// The modifiers that only switch on a flag: `all`, `cased`, `neq`, `windash`, and the
/// regex flags `i`, `m` and `s`.
pub open spec fn is_flag_name(name: Seq<char>) -> bool {
    ||| name == "all"@
    ||| name == "cased"@
    ||| name == "neq"@
    ||| name == "windash"@
    ||| name == "i"@
    ||| name == "m"@
    ||| name == "s"@
}

/// The modifiers after the flag `name` is switched on.
pub open spec fn set_flag(m: Modifiers, name: Seq<char>) -> Modifiers {
    if name == "all"@ {
        Modifiers { all: true, ..m }
    } else if name == "cased"@ {
        Modifiers { cased: true, ..m }
    } else if name == "neq"@ {
        Modifiers { neq: true, ..m }
    } else if name == "windash"@ {
        Modifiers { windash: true, ..m }
    } else if name == "i"@ {
        Modifiers { re_case_insensitive: true, ..m }
    } else if name == "m"@ {
        Modifiers { re_multi_line: true, ..m }
    } else {
        Modifiers { re_dot_all: true, ..m }
    }
}

/// The regex flags `i`, `m` and `s` follow `re`.
pub open spec fn flag_allowed(m: Modifiers, name: Seq<char>) -> bool {
    (name == "i"@ || name == "m"@ || name == "s"@) ==> m.kind == MatchKind::Regex
}
/// Applying `all` switches its flag on.
proof fn lemma_apply_all(m: Modifiers)
    requires
        flag_allowed(m, "all"@),
    ensures
        apply_modifier(m, "all"@) == Some(set_flag(m, "all"@)),
{
    reveal_strlit("contains");
    reveal_strlit("startswith");
    reveal_strlit("endswith");
    reveal_strlit("re");
    reveal_strlit("cidr");
    reveal_strlit("gt");
    reveal_strlit("gte");
    reveal_strlit("lt");
    reveal_strlit("lte");
    reveal_strlit("exists");
    reveal_strlit("fieldref");
    reveal_strlit("all");
    reveal_strlit("cased");
    reveal_strlit("neq");
    reveal_strlit("windash");
    reveal_strlit("i");
    reveal_strlit("m");
    reveal_strlit("s");
    let x = "all"@;
    lemma_ci_differs(x, "gte"@, 0);
    lemma_ci_differs(x, "lte"@, 0);
    lemma_ci_self(x);
}
/// Applying `cased` switches its flag on.
proof fn lemma_apply_cased(m: Modifiers)
    requires
        flag_allowed(m, "cased"@),
    ensures
        apply_modifier(m, "cased"@) == Some(set_flag(m, "cased"@)),
{
    reveal_strlit("contains");
    reveal_strlit("startswith");
    reveal_strlit("endswith");
    reveal_strlit("re");
    reveal_strlit("cidr");
    reveal_strlit("gt");
    reveal_strlit("gte");
    reveal_strlit("lt");
    reveal_strlit("lte");
    reveal_strlit("exists");
    reveal_strlit("fieldref");
    reveal_strlit("all");
    reveal_strlit("cased");
    reveal_strlit("neq");
    reveal_strlit("windash");
    reveal_strlit("i");
    reveal_strlit("m");
    reveal_strlit("s");
    let x = "cased"@;
    lemma_ci_self(x);
}
/// Applying `neq` switches its flag on.
proof fn lemma_apply_neq(m: Modifiers)
    requires
        flag_allowed(m, "neq"@),
    ensures
        apply_modifier(m, "neq"@) == Some(set_flag(m, "neq"@)),
{
    reveal_strlit("contains");
    reveal_strlit("startswith");
    reveal_strlit("endswith");
    reveal_strlit("re");
    reveal_strlit("cidr");
    reveal_strlit("gt");
    reveal_strlit("gte");
    reveal_strlit("lt");
    reveal_strlit("lte");
    reveal_strlit("exists");
    reveal_strlit("fieldref");
    reveal_strlit("all");
    reveal_strlit("cased");
    reveal_strlit("neq");
    reveal_strlit("windash");
    reveal_strlit("i");
    reveal_strlit("m");
    reveal_strlit("s");
    let x = "neq"@;
    lemma_ci_differs(x, "gte"@, 0);
    lemma_ci_differs(x, "lte"@, 0);
    lemma_ci_differs(x, "all"@, 0);
    lemma_ci_self(x);
}
/// Applying `windash` switches its flag on.
proof fn lemma_apply_windash(m: Modifiers)
    requires
        flag_allowed(m, "windash"@),
    ensures
        apply_modifier(m, "windash"@) == Some(set_flag(m, "windash"@)),
{
    reveal_strlit("contains");
    reveal_strlit("startswith");
    reveal_strlit("endswith");
    reveal_strlit("re");
    reveal_strlit("cidr");
    reveal_strlit("gt");
    reveal_strlit("gte");
    reveal_strlit("lt");
    reveal_strlit("lte");
    reveal_strlit("exists");
    reveal_strlit("fieldref");
    reveal_strlit("all");
    reveal_strlit("cased");
    reveal_strlit("neq");
    reveal_strlit("windash");
    reveal_strlit("i");
    reveal_strlit("m");
    reveal_strlit("s");
    let x = "windash"@;
    lemma_ci_self(x);
}
/// Applying `i` switches its flag on.
proof fn lemma_apply_i(m: Modifiers)
    requires
        flag_allowed(m, "i"@),
    ensures
        apply_modifier(m, "i"@) == Some(set_flag(m, "i"@)),
{
    reveal_strlit("contains");
    reveal_strlit("startswith");
    reveal_strlit("endswith");
    reveal_strlit("re");
    reveal_strlit("cidr");
    reveal_strlit("gt");
    reveal_strlit("gte");
    reveal_strlit("lt");
    reveal_strlit("lte");
    reveal_strlit("exists");
    reveal_strlit("fieldref");
    reveal_strlit("all");
    reveal_strlit("cased");
    reveal_strlit("neq");
    reveal_strlit("windash");
    reveal_strlit("i");
    reveal_strlit("m");
    reveal_strlit("s");
    let x = "i"@;
    lemma_ci_self(x);
}
/// Applying `m` switches its flag on.
proof fn lemma_apply_m(m: Modifiers)
    requires
        flag_allowed(m, "m"@),
    ensures
        apply_modifier(m, "m"@) == Some(set_flag(m, "m"@)),
{
    reveal_strlit("contains");
    reveal_strlit("startswith");
    reveal_strlit("endswith");
    reveal_strlit("re");
    reveal_strlit("cidr");
    reveal_strlit("gt");
    reveal_strlit("gte");
    reveal_strlit("lt");
    reveal_strlit("lte");
    reveal_strlit("exists");
    reveal_strlit("fieldref");
    reveal_strlit("all");
    reveal_strlit("cased");
    reveal_strlit("neq");
    reveal_strlit("windash");
    reveal_strlit("i");
    reveal_strlit("m");
    reveal_strlit("s");
    let x = "m"@;
    lemma_ci_differs(x, "i"@, 0);
    lemma_ci_self(x);
}
/// Applying `s` switches its flag on.
proof fn lemma_apply_s(m: Modifiers)
    requires
        flag_allowed(m, "s"@),
    ensures
        apply_modifier(m, "s"@) == Some(set_flag(m, "s"@)),
{
    reveal_strlit("contains");
    reveal_strlit("startswith");
    reveal_strlit("endswith");
    reveal_strlit("re");
    reveal_strlit("cidr");
    reveal_strlit("gt");
    reveal_strlit("gte");
    reveal_strlit("lt");
    reveal_strlit("lte");
    reveal_strlit("exists");
    reveal_strlit("fieldref");
    reveal_strlit("all");
    reveal_strlit("cased");
    reveal_strlit("neq");
    reveal_strlit("windash");
    reveal_strlit("i");
    reveal_strlit("m");
    reveal_strlit("s");
    let x = "s"@;
    lemma_ci_differs(x, "i"@, 0);
    lemma_ci_differs(x, "m"@, 0);
    lemma_ci_self(x);
}

/// Applying a flag switches it on.
proof fn lemma_apply_flag(m: Modifiers, name: Seq<char>)
    requires
        is_flag_name(name),
        flag_allowed(m, name),
    ensures
        apply_modifier(m, name) == Some(set_flag(m, name)),
        set_flag(m, name).kind == m.kind,
{
    if name == "all"@ {
        lemma_apply_all(m);

    } else if name == "cased"@ {
        lemma_apply_cased(m);

    } else if name == "neq"@ {
        lemma_apply_neq(m);

    } else if name == "windash"@ {
        lemma_apply_windash(m);

    } else if name == "i"@ {
        lemma_apply_i(m);

    } else if name == "m"@ {
        lemma_apply_m(m);

    } else if name == "s"@ {
        lemma_apply_s(m);
    }
}

/// What applying the modifier `name` after `o` gives.
pub open spec fn then_apply(o: Option<Modifiers>, name: Seq<char>) -> Option<Modifiers> {
    match o {
        Some(m) => apply_modifier(m, name),
        None => None,
    }
}

/// Flags may be written in any order and any number of times: applying two flags gives the
/// same modifiers in either order, and applying a flag twice is the same as once (so
/// `neq|neq` is `neq`, and `re|i|s|m` is `re|m|i|s`).
pub proof fn law_flags_commute(m: Modifiers, x: Seq<char>, y: Seq<char>)
    requires
        is_flag_name(x),
        is_flag_name(y),
        flag_allowed(m, x),
        flag_allowed(m, y),
    ensures
        apply_modifier(m, x) is Some,
        then_apply(apply_modifier(m, x), y) == then_apply(apply_modifier(m, y), x),
        then_apply(apply_modifier(m, x), x) == apply_modifier(m, x),
{
    lemma_apply_flag(m, x);
    lemma_apply_flag(m, y);
    let mx = set_flag(m, x);
    let my = set_flag(m, y);
    lemma_apply_flag(mx, y);
    lemma_apply_flag(my, x);
    lemma_apply_flag(mx, x);
    reveal_strlit("all");
    reveal_strlit("cased");
    reveal_strlit("neq");
    reveal_strlit("windash");
    reveal_strlit("i");
    reveal_strlit("m");
    reveal_strlit("s");
}

/// Modifier names are read regardless of ASCII case: a name that equals a modifier name up
/// to case (`RE`, `Contains`, `NEQ`) acts as that modifier.
pub proof fn law_modifier_names_ignore_case(m: Modifiers, w: Seq<char>, x: Seq<char>)
    requires
        ci_eq(w, x),
        no_upper(x),
    ensures
        apply_modifier(m, w) == apply_modifier(m, x),
{
    lemma_names_lowercase();
    lemma_ci_eq_same(w, x, "contains"@);
    lemma_ci_eq_same(w, x, "startswith"@);
    lemma_ci_eq_same(w, x, "endswith"@);
    lemma_ci_eq_same(w, x, "re"@);
    lemma_ci_eq_same(w, x, "cidr"@);
    lemma_ci_eq_same(w, x, "gt"@);
    lemma_ci_eq_same(w, x, "gte"@);
    lemma_ci_eq_same(w, x, "lt"@);
    lemma_ci_eq_same(w, x, "lte"@);
    lemma_ci_eq_same(w, x, "exists"@);
    lemma_ci_eq_same(w, x, "fieldref"@);
    lemma_ci_eq_same(w, x, "all"@);
    lemma_ci_eq_same(w, x, "cased"@);
    lemma_ci_eq_same(w, x, "neq"@);
    lemma_ci_eq_same(w, x, "windash"@);
    lemma_ci_eq_same(w, x, "i"@);
    lemma_ci_eq_same(w, x, "m"@);
    lemma_ci_eq_same(w, x, "s"@);
    lemma_ci_eq_same(w, x, "base64"@);
    lemma_ci_eq_same(w, x, "base64offset"@);
    lemma_ci_eq_same(w, x, "wide"@);
    lemma_ci_eq_same(w, x, "utf16le"@);
    lemma_ci_eq_same(w, x, "utf16be"@);
    lemma_ci_eq_same(w, x, "utf16"@);
}

} // verus!

verus! {

/// The positions among the first `n` that satisfy `p`.
pub open spec fn positions(n: int, p: spec_fn(int) -> bool) -> Set<int> {
    Set::new(|j: int| 0 <= j < n && p(j))
}

/// A count is the number of positions that it counts.
proof fn lemma_count_is_len(n: int, p: spec_fn(int) -> bool)
    requires
        n >= 0,
    ensures
        positions(n, p).finite(),
        count_upto(n, p) == positions(n, p).len(),
    decreases n,
{
    if n == 0 {
        assert(positions(n, p) =~= Set::empty());
    } else {
        lemma_count_is_len(n - 1, p);
        if p(n - 1) {
            assert(positions(n, p) =~= positions(n - 1, p).insert(n - 1));
        } else {
            assert(positions(n, p) =~= positions(n - 1, p));
        }
    }
}

/// A rule that fires in a slot fires there a first time.
proof fn lemma_first_occurrence(obs: Seq<Obs>, span: int, i: int, j: int)
    requires
        0 <= j < obs.len(),
        same_slot(obs, span, j, i),
    ensures
        exists|f: int| 0 <= f <= j && new_rule_in_slot(obs, span, i, f) && #[trigger] obs[f].rule_idx == obs[j].rule_idx,
    decreases j,
{
    if new_rule_in_slot(obs, span, i, j) {
        assert(obs[j].rule_idx == obs[j].rule_idx);
    } else {
        let k = choose|k: int| 0 <= k < j && same_slot(obs, span, k, i) && obs[k].rule_idx == obs[j].rule_idx;
        lemma_first_occurrence(obs, span, i, k);
    }
}

/// A time that [`earliest_in_slot`] finds is that of an observation of the slot from the rule.
proof fn lemma_earliest_found(obs: Seq<Obs>, span: int, i: int, r: int, after: Option<int>, n: int)
    requires
        0 <= n <= obs.len(),
        earliest_in_slot(obs, span, i, r, after, n) is Some,
    ensures
        exists|j: int| 0 <= j < n && same_slot(obs, span, j, i) && #[trigger] obs[j].rule_idx == r,
    decreases n,
{
    let m = earliest_in_slot(obs, span, i, r, after, n - 1);
    let o = obs[n - 1];
    if same_slot(obs, span, n - 1, i) && o.rule_idx == r && (after matches Some(a) ==> a < o.time) {
        assert(obs[n - 1].rule_idx == r);
    } else {
        lemma_earliest_found(obs, span, i, r, after, n - 1);
    }
}

/// Each rule of an ordered chain fires in the slot.
proof fn lemma_progress_fires(obs: Seq<Obs>, span: int, i: int, r: int, after: Option<int>, nrules: int, q: int)
    requires
        r <= q < r + slot_progress(obs, span, i, r, after, nrules),
    ensures
        exists|j: int| 0 <= j < obs.len() && same_slot(obs, span, j, i) && #[trigger] obs[j].rule_idx == q,
    decreases nrules - r,
{
    if r >= nrules || r < 0 {
    } else {
        match earliest_in_slot(obs, span, i, r, after, obs.len() as int) {
            Some(t) => {
                if q == r {
                    lemma_earliest_found(obs, span, i, r, after, obs.len() as int);
                } else {
                    lemma_progress_fires(obs, span, i, r + 1, Some(t), nrules, q);
                }
            },
            None => {},
        }
    }
}

/// In one group and time window, an ordered chain of rules is never longer than the number
/// of distinct rules that fire there.
proof fn lemma_chain_le_rules(obs: Seq<Obs>, span: int, i: int, nrules: int)
    ensures
        slot_chain(obs, span, i, nrules) <= slot_rules(obs, span, i),
{
    let n = obs.len() as int;
    let c = slot_chain(obs, span, i, nrules) as int;
    let p = |j: int| new_rule_in_slot(obs, span, i, j);
    let firsts = positions(n, p);
    let g = |j: int| obs[j].rule_idx;
    let present = firsts.map(g);
    lemma_count_is_len(n, p);
    assert(count_upto(n, p) == slot_rules(obs, span, i));
    assert(vstd::relations::injective_on(g, firsts)) by {
        assert forall|a: int, b: int| firsts.contains(a) && firsts.contains(b) && #[trigger] g(a) == #[trigger] g(b)
            implies a == b by {
            if a < b {
                assert(!(same_slot(obs, span, a, i) && obs[a].rule_idx == obs[b].rule_idx));
            } else if b < a {
                assert(!(same_slot(obs, span, b, i) && obs[b].rule_idx == obs[a].rule_idx));
            }
        }
    }
    vstd::set_lib::lemma_map_size(firsts, present, g);
    assert(vstd::set_lib::set_int_range(0, c).subset_of(present)) by {
        assert forall|q: int| #[trigger] vstd::set_lib::set_int_range(0, c).contains(q) implies present.contains(q) by {
            lemma_progress_fires(obs, span, i, 0, None, nrules, q);
            let j = choose|j: int| 0 <= j < obs.len() && same_slot(obs, span, j, i) && #[trigger] obs[j].rule_idx == q;
            lemma_first_occurrence(obs, span, i, j);
            let f = choose|f: int| 0 <= f <= j && new_rule_in_slot(obs, span, i, f) && #[trigger] obs[f].rule_idx == obs[j].rule_idx;
            assert(firsts.contains(f));
            assert(g(f) == q);
        }
    }
    vstd::set_lib::lemma_int_range(0, c);
    vstd::set_lib::lemma_len_subset(vstd::set_lib::set_int_range(0, c), present);
}

/// `temporal_ordered` asks more than `temporal`: over the same observations it yields the
/// same groups and time windows, in the same order, each with a count no larger than the
/// count that `temporal` gives it.
pub proof fn law_ordered_is_stricter(obs: Seq<Obs>, span: int, nrules: int, n: int)
    ensures
        temporal_outcomes(obs, span, true, nrules, n).len() == temporal_outcomes(obs, span, false, nrules, n).len(),
        forall|k: int| 0 <= k < temporal_outcomes(obs, span, true, nrules, n).len() ==> {
            &&& (#[trigger] temporal_outcomes(obs, span, true, nrules, n)[k]).key
                == temporal_outcomes(obs, span, false, nrules, n)[k].key
            &&& temporal_outcomes(obs, span, true, nrules, n)[k].count
                <= temporal_outcomes(obs, span, false, nrules, n)[k].count
        },
    decreases n,
{
    if n > 0 {
        law_ordered_is_stricter(obs, span, nrules, n - 1);
        lemma_chain_le_rules(obs, span, n - 1, nrules);
    }
}

} // verus!

verus! {

/// Two sections that differ only in their type see the same observations.
proof fn lemma_observations_ignore_type(a: CorrelationSection, b: CorrelationSection, evs: Seq<TimestampedEvent>)
    requires
        b == (CorrelationSection { correlation_type: b.correlation_type, ..a }),
    ensures
        observations(a, evs) == observations(b, evs),
    decreases evs.len(),
{
    if evs.len() > 0 {
        lemma_observations_ignore_type(a, b, evs.drop_last());
        assert(observation(a, evs.last()) == observation(b, evs.last()));
    }
}

/// A `temporal_ordered` correlation never counts more than the `temporal` correlation that
/// differs from it only in its type: both give the same groups and time windows, in the same
/// order, and the ordered count of each is at most the unordered one.
pub proof fn law_ordered_section_is_stricter(
    ordered: CorrelationSection,
    unordered: CorrelationSection,
    evs: Seq<TimestampedEvent>,
)
    requires
        ordered.correlation_type == CorrelationType::TemporalOrdered,
        unordered == (CorrelationSection { correlation_type: CorrelationType::Temporal, ..ordered }),
    ensures
        section_outcomes(ordered, evs).len() == section_outcomes(unordered, evs).len(),
        forall|k: int| 0 <= k < section_outcomes(ordered, evs).len() ==> {
            &&& (#[trigger] section_outcomes(ordered, evs)[k]).key == section_outcomes(unordered, evs)[k].key
            &&& section_outcomes(ordered, evs)[k].count <= section_outcomes(unordered, evs)[k].count
        },
{
    lemma_observations_ignore_type(ordered, unordered, evs);
    let obs = observations(ordered, evs);
    law_ordered_is_stricter(obs, section_span(ordered), ordered.rules@.len() as int, obs.len() as int);
}

} // verus!

verus! {

/// Counting fewer candidates never gives more.
proof fn lemma_count_monotone(n: int, p: spec_fn(int) -> bool, q: spec_fn(int) -> bool)
    requires
        forall|j: int| 0 <= j < n && #[trigger] p(j) ==> q(j),
    ensures
        count_upto(n, p) <= count_upto(n, q),
    decreases n,
{
    if n > 0 {
        lemma_count_monotone(n - 1, p, q);
    }
}

/// `value_count` never counts more than `event_count` over the same observations: both give
/// the same groups and time windows, in the same order, and the number of distinct values of
/// each is at most its number of events.
pub proof fn law_values_within_events(obs: Seq<Obs>, span: int, n: int)
    ensures
        counting_outcomes(obs, span, true, n).len() == counting_outcomes(obs, span, false, n).len(),
        forall|k: int| 0 <= k < counting_outcomes(obs, span, true, n).len() ==> {
            &&& (#[trigger] counting_outcomes(obs, span, true, n)[k]).key == counting_outcomes(obs, span, false, n)[k].key
            &&& counting_outcomes(obs, span, true, n)[k].count <= counting_outcomes(obs, span, false, n)[k].count
        },
    decreases n,
{
    if n > 0 {
        law_values_within_events(obs, span, n - 1);
        let i = n - 1;
        lemma_count_monotone(
            obs.len() as int,
            |j: int| new_value_in_slot(obs, span, i, j),
            |j: int| same_slot(obs, span, j, i),
        );
        assert(slot_values(obs, span, i) <= slot_size(obs, span, i));
    }
}

/// A `value_count` correlation never counts more than the `event_count` correlation that
/// differs from it only in its type.
pub proof fn law_value_count_within_event_count(
    values: CorrelationSection,
    events: CorrelationSection,
    evs: Seq<TimestampedEvent>,
)
    requires
        values.correlation_type == CorrelationType::ValueCount,
        events == (CorrelationSection { correlation_type: CorrelationType::EventCount, ..values }),
    ensures
        section_outcomes(values, evs).len() == section_outcomes(events, evs).len(),
        forall|k: int| 0 <= k < section_outcomes(values, evs).len() ==> {
            &&& (#[trigger] section_outcomes(values, evs)[k]).key == section_outcomes(events, evs)[k].key
            &&& section_outcomes(values, evs)[k].count <= section_outcomes(events, evs)[k].count
        },
{
    lemma_observations_ignore_type(values, events, evs);
    let obs = observations(values, evs);
    law_values_within_events(obs, section_span(values), obs.len() as int);
}

} // verus!

verus! {

/// The pattern text holds neither a wildcard nor a backslash.
pub open spec fn no_wildcards(p: Seq<char>) -> bool {
    forall|i: int| 0 <= i < p.len() ==> #[trigger] p[i] != '*' && p[i] != '?' && p[i] != '\\'
}

/// A pattern without wildcards matches exactly the string it spells.
pub proof fn law_plain_pattern_is_exact(p: Seq<char>, s: Seq<char>)
    requires
        no_wildcards(p),
    ensures
        glob_match(glob_tokens(p, false), s) <==> s == p,
    decreases p.len(),
{
    if p.len() == 0 {
        if s.len() == 0 {
            assert(s =~= p);
        }
    } else {
        let t = glob_tokens(p, false);
        assert(p[0] != '*' && p[0] != '?' && p[0] != '\\');
        assert(t[0] == GlobToken::Literal(p[0]));
        assert(t.skip(1) =~= glob_tokens(p.skip(1), false));
        assert(no_wildcards(p.skip(1))) by {
            assert forall|i: int| 0 <= i < p.skip(1).len() implies #[trigger] p.skip(1)[i] != '*'
                && p.skip(1)[i] != '?' && p.skip(1)[i] != '\\' by {
                assert(p.skip(1)[i] == p[i + 1]);
            }
        }
        if s.len() > 0 {
            law_plain_pattern_is_exact(p.skip(1), s.skip(1));
            if s == p {
                assert(s.skip(1) =~= p.skip(1));
            }
            if s[0] == p[0] && s.skip(1) == p.skip(1) {
                assert(s.len() == p.len());
                assert forall|k: int| 0 <= k < s.len() implies s[k] == p[k] by {
                    if k > 0 {
                        assert(s[k] == s.skip(1)[k - 1]);
                        assert(p[k] == p.skip(1)[k - 1]);
                    }
                }
                assert(s =~= p);
            }
        }
    }
}

/// The pattern `*` matches every string.
pub proof fn law_star_matches_all(s: Seq<char>)
    ensures
        glob_match(glob_tokens(seq!['*'], false), s),
{
    let p = seq!['*'];
    let t = glob_tokens(p, false);
    assert(p.skip(1) =~= Seq::<char>::empty());
    assert(glob_tokens(p.skip(1), false) == Seq::<GlobToken>::empty());
    assert(glob_step(p, false) == (GlobToken::AnyRun, 1int));
    assert(t =~= seq![GlobToken::AnyRun]);
    lemma_run_matches_all(s);
}

} // verus!

verus! {

/// `p` is a prefix of `s`.
pub open spec fn is_prefix(p: Seq<char>, s: Seq<char>) -> bool {
    p.len() <= s.len() && s.take(p.len() as int) == p
}

/// `p` occurs somewhere in `s`.
pub open spec fn occurs_in(p: Seq<char>, s: Seq<char>) -> bool {
    exists|k: int| 0 <= k <= s.len() && is_prefix(p, #[trigger] s.skip(k))
}

/// `p` is a suffix of `s`.
pub open spec fn is_suffix(p: Seq<char>, s: Seq<char>) -> bool {
    p.len() <= s.len() && s.skip(s.len() - p.len()) == p
}

/// A leading `*` lets the rest match any tail of the string.
proof fn lemma_leading_run(u: Seq<GlobToken>, s: Seq<char>)
    ensures
        glob_match(seq![GlobToken::AnyRun] + u, s) <==> exists|k: int| 0 <= k <= s.len() && glob_match(u, #[trigger] s.skip(k)),
    decreases s.len(),
{
    let t = seq![GlobToken::AnyRun] + u;
    assert(t[0] == GlobToken::AnyRun);
    assert(t.skip(1) =~= u);
    assert(s.skip(0) =~= s);
    if s.len() > 0 {
        lemma_leading_run(u, s.skip(1));
        if glob_match(t, s.skip(1)) {
            let k = choose|k: int| 0 <= k <= s.skip(1).len() && glob_match(u, #[trigger] s.skip(1).skip(k));
            assert(s.skip(1).skip(k) =~= s.skip(k + 1));
        }
        if exists|k: int| 0 <= k <= s.len() && glob_match(u, #[trigger] s.skip(k)) {
            let k = choose|k: int| 0 <= k <= s.len() && glob_match(u, #[trigger] s.skip(k));
            if k > 0 {
                assert(s.skip(1).skip(k - 1) =~= s.skip(k));
            }
        }
    } else {
        if exists|k: int| 0 <= k <= s.len() && glob_match(u, #[trigger] s.skip(k)) {
            let k = choose|k: int| 0 <= k <= s.len() && glob_match(u, #[trigger] s.skip(k));
            assert(k == 0);
        }
    }
}

/// A lone `*` token matches every string.
proof fn lemma_run_matches_all(s: Seq<char>)
    ensures
        glob_match(seq![GlobToken::AnyRun], s),
    decreases s.len(),
{
    let t = seq![GlobToken::AnyRun];
    assert(t.skip(1) =~= Seq::<GlobToken>::empty());
    if s.len() > 0 {
        lemma_run_matches_all(s.skip(1));
        assert(glob_match(t, s.skip(1)));
    } else {
        assert(glob_match(t.skip(1), s));
    }
}

/// The pattern without wildcards that a trailing `*` leaves open matches the strings that
/// start with it.
proof fn lemma_trailing_run(p: Seq<char>, s: Seq<char>)
    requires
        no_wildcards(p),
    ensures
        glob_match(glob_tokens(p, false) + seq![GlobToken::AnyRun], s) <==> is_prefix(p, s),
    decreases p.len(),
{
    let t = glob_tokens(p, false) + seq![GlobToken::AnyRun];
    if p.len() == 0 {
        assert(t =~= seq![GlobToken::AnyRun]);
        lemma_run_matches_all(s);
        assert(s.take(0) =~= p);
    } else {
        assert(p[0] != '*' && p[0] != '?' && p[0] != '\\');
        assert(glob_tokens(p, false)[0] == GlobToken::Literal(p[0]));
        assert(t[0] == GlobToken::Literal(p[0]));
        assert(t.skip(1) =~= glob_tokens(p.skip(1), false) + seq![GlobToken::AnyRun]);
        assert(no_wildcards(p.skip(1))) by {
            assert forall|i: int| 0 <= i < p.skip(1).len() implies #[trigger] p.skip(1)[i] != '*'
                && p.skip(1)[i] != '?' && p.skip(1)[i] != '\\' by {
                assert(p.skip(1)[i] == p[i + 1]);
            }
        }
        if s.len() > 0 {
            lemma_trailing_run(p.skip(1), s.skip(1));
            if is_prefix(p, s) {
                assert(s.skip(1).take(p.len() - 1) =~= p.skip(1)) by {
                    assert forall|k: int| 0 <= k < p.len() - 1 implies s.skip(1).take(p.len() - 1)[k] == p.skip(1)[k] by {
                        assert(s.take(p.len() as int)[k + 1] == p[k + 1]);
                    }
                }
                assert(s[0] == s.take(p.len() as int)[0]);
            }
            if s[0] == p[0] && is_prefix(p.skip(1), s.skip(1)) {
                assert(s.take(p.len() as int) =~= p) by {
                    assert forall|k: int| 0 <= k < p.len() implies s.take(p.len() as int)[k] == p[k] by {
                        if k > 0 {
                            assert(s.skip(1).take(p.len() - 1)[k - 1] == p.skip(1)[k - 1]);
                        }
                    }
                }
            }
        }
    }
}

/// `contains` tests for a substring: without wildcards in the pattern, a `contains` condition
/// matches exactly the strings in which the pattern occurs (both lowercased unless `cased`).
pub proof fn law_contains_is_substring(m: Modifiers, p: Seq<char>, v: Seq<char>)
    requires
        m.kind == MatchKind::Contains,
        !m.windash,
        no_wildcards(if m.cased { p } else { lowercase(p) }),
    ensures
        text_matches(m, p, v) <==> occurs_in(
            if m.cased { p } else { lowercase(p) },
            if m.cased { v } else { lowercase(v) },
        ),
{
    let pp = if m.cased { p } else { lowercase(p) };
    let vv = if m.cased { v } else { lowercase(v) };
    let t = glob_tokens(pp, false);
    let run = seq![GlobToken::AnyRun];
    assert(run + t + run =~= run + (t + run));
    lemma_leading_run(t + run, vv);
    if text_matches(m, p, v) {
        let k = choose|k: int| 0 <= k <= vv.len() && glob_match(t + run, #[trigger] vv.skip(k));
        lemma_trailing_run(pp, vv.skip(k));
    }
    if occurs_in(pp, vv) {
        let k = choose|k: int| 0 <= k <= vv.len() && is_prefix(pp, #[trigger] vv.skip(k));
        lemma_trailing_run(pp, vv.skip(k));
    }
}

/// `startswith` tests for a prefix: without wildcards in the pattern, a `startswith`
/// condition matches exactly the strings that begin with the pattern (both lowercased unless
/// `cased`).
pub proof fn law_startswith_is_prefix(m: Modifiers, p: Seq<char>, v: Seq<char>)
    requires
        m.kind == MatchKind::StartsWith,
        !m.windash,
        no_wildcards(if m.cased { p } else { lowercase(p) }),
    ensures
        text_matches(m, p, v) <==> is_prefix(
            if m.cased { p } else { lowercase(p) },
            if m.cased { v } else { lowercase(v) },
        ),
{
    let pp = if m.cased { p } else { lowercase(p) };
    let vv = if m.cased { v } else { lowercase(v) };
    lemma_trailing_run(pp, vv);
}

/// `endswith` tests for a suffix: without wildcards in the pattern, an `endswith` condition
/// matches exactly the strings that end with the pattern (both lowercased unless `cased`).
pub proof fn law_endswith_is_suffix(m: Modifiers, p: Seq<char>, v: Seq<char>)
    requires
        m.kind == MatchKind::EndsWith,
        !m.windash,
        no_wildcards(if m.cased { p } else { lowercase(p) }),
    ensures
        text_matches(m, p, v) <==> is_suffix(
            if m.cased { p } else { lowercase(p) },
            if m.cased { v } else { lowercase(v) },
        ),
{
    let pp = if m.cased { p } else { lowercase(p) };
    let vv = if m.cased { v } else { lowercase(v) };
    let t = glob_tokens(pp, false);
    lemma_leading_run(t, vv);
    if text_matches(m, p, v) {
        let k = choose|k: int| 0 <= k <= vv.len() && glob_match(t, #[trigger] vv.skip(k));
        law_plain_pattern_is_exact(pp, vv.skip(k));
        assert(vv.skip(k).len() == pp.len());
        assert(k == vv.len() - pp.len());
    }
    if is_suffix(pp, vv) {
        let k = vv.len() - pp.len();
        law_plain_pattern_is_exact(pp, vv.skip(k));
        assert(glob_match(t, vv.skip(k)));
    }
}

} // verus!

verus! {

/// Two keys of a field condition that name the same field and whose modifiers come to the
/// same (such as `F|neq` and `F|neq|neq`, or `F|re|i|m` and `F|RE|M|I`) read, with the same
/// values, as conditions that hold for exactly the same events.
pub proof fn law_equal_modifiers_match_alike(
    a: FieldRule,
    b: FieldRule,
    key_a: Seq<char>,
    key_b: Seq<char>,
    v: FieldValue,
    event: Seq<(String, FieldValue)>,
)
    requires
        field_rule_reads(a, key_a, v),
        field_rule_reads(b, key_b, v),
        split_on(key_a, '|')[0] == split_on(key_b, '|')[0],
        fold_modifiers(plain_modifiers(), split_on(key_a, '|').skip(1))
            == fold_modifiers(plain_modifiers(), split_on(key_b, '|').skip(1)),
    ensures
        field_rule_holds(a, event) == field_rule_holds(b, event),
{
    assert(a.modifiers == b.modifiers);
    assert(a.values@ == b.values@);
    assert(a.field@ == b.field@);
}

} // verus!

verus! {

/// The byte at position `t` of `s`, or 0 past its end.
pub open spec fn byte_or_zero(s: Seq<u8>, t: int) -> int {
    if 0 <= t < s.len() { s[t] as int } else { 0 }
}

/// Character `k` of the base64 encoding of `s`, from the bytes it depends on.
pub open spec fn b64_char_at(s: Seq<u8>, k: int) -> char {
    let g = 3 * (k / 4);
    let j = k % 4;
    if j == 0 {
        b64_digit(byte_or_zero(s, g) / 4)
    } else if j == 1 {
        b64_digit((byte_or_zero(s, g) % 4) * 16 + byte_or_zero(s, g + 1) / 16)
    } else if j == 2 {
        b64_digit((byte_or_zero(s, g + 1) % 16) * 4 + byte_or_zero(s, g + 2) / 64)
    } else {
        b64_digit(byte_or_zero(s, g + 2) % 64)
    }
}

/// The first byte that character `k` of a base64 encoding depends on.
pub open spec fn dep_lo(k: int) -> int {
    3 * (k / 4) + if k % 4 <= 1 { 0int } else if k % 4 == 2 { 1int } else { 2int }
}

/// The last byte that character `k` of a base64 encoding depends on.
pub open spec fn dep_hi(k: int) -> int {
    3 * (k / 4) + if k % 4 == 0 { 0int } else if k % 4 == 1 { 1int } else { 2int }
}

/// A character of a base64 encoding whose bytes all lie in the input is computed from them
/// alone.
proof fn lemma_b64_char(s: Seq<u8>, k: int)
    requires
        0 <= k,
        dep_hi(k) < s.len(),
    ensures
        k < base64_of(s).len(),
        base64_of(s)[k] == b64_char_at(s, k),
    decreases s.len(),
{
    if k < 4 {
        assert(k / 4 == 0);
    } else {
        assert(s.len() > 3);
        assert((k - 4) / 4 == k / 4 - 1 && (k - 4) % 4 == k % 4);
        lemma_b64_char(s.skip(3), k - 4);
        assert(base64_of(s) == seq![
            b64_digit(s[0] as int / 4),
            b64_digit((s[0] as int % 4) * 16 + s[1] as int / 16),
            b64_digit((s[1] as int % 16) * 4 + s[2] as int / 64),
            b64_digit(s[2] as int % 64),
        ] + base64_of(s.skip(3)));
        let g = 3 * (k / 4);
        assert(byte_or_zero(s.skip(3), g - 3) == byte_or_zero(s, g));
        assert(byte_or_zero(s.skip(3), g - 2) == byte_or_zero(s, g + 1));
        assert(byte_or_zero(s.skip(3), g - 1) == byte_or_zero(s, g + 2));
    }
}

/// A base64 encoding has four characters for every three bytes, the last group padded.
proof fn lemma_b64_len(s: Seq<u8>)
    ensures
        base64_of(s).len() == 4 * ((s.len() + 2) / 3),
    decreases s.len(),
{
    if s.len() > 2 {
        lemma_b64_len(s.skip(3));
        assert((s.len() - 3 + 2) / 3 == (s.len() + 2) / 3 - 1);
    }
}

/// `base64offset` finds the value wherever it sits: in the base64 encoding of any bytes that
/// hold the value after a prefix `x`, the variant for the prefix's length modulo 3 occurs.
pub proof fn law_offset_variant_occurs(x: Seq<u8>, b: Seq<u8>, y: Seq<u8>)
    ensures
        ({
            let s = x + b + y;
            let v = offset_variant(b, (x.len() % 3) as int);
            exists|k: int| 0 <= k <= base64_of(s).len() && is_prefix(v, #[trigger] base64_of(s).skip(k))
        }),
{
    let r = (x.len() % 3) as int;
    let q = (x.len() / 3) as int;
    let s = x + b + y;
    let s1 = spaces(r) + b;
    let n = s1.len() as int;
    let e = base64_of(s1);
    let start = if r == 0 { 0int } else if r == 1 { 2int } else { 3int };
    let rr = (b.len() + r) % 3;
    let cut = if rr == 0 { 0int } else if rr == 1 { 3int } else { 2int };
    let v = offset_variant(b, r);
    let big = base64_of(s);
    let k0 = 4 * q + start;
    lemma_b64_len(s1);
    assert(n == r + b.len());
    if start <= e.len() - cut {
        let end = e.len() - cut;
        assert(v == e.subrange(start, end));
        // Every kept character depends only on bytes of the value.
        assert forall|m: int| start <= m < end implies r <= dep_lo(m) && dep_hi(m) < n by {
            lemma_kept_deps(n, r, start, cut, m);
        }
        assert forall|t: int| 0 <= t < v.len() implies k0 + t < big.len() && big[k0 + t] == v[t] by {
            let m = start + t;
            lemma_kept_deps(n, r, start, cut, m);
            lemma_b64_char(s1, m);
            lemma_shift_deps(q, m);
            lemma_b64_char(s, 4 * q + m);
            assert(k0 + t == 4 * q + m);
            let g = 3 * (m / 4);
            assert forall|d: int| dep_lo(m) <= d <= dep_hi(m) implies byte_or_zero(s, 3 * q + d) == byte_or_zero(s1, d) by {
                assert(s[3 * q + d] == b[d - r]);
                assert(s1[d] == b[d - r]);
            }
            if m % 4 == 0 {
                assert(byte_or_zero(s, 3 * q + g) == byte_or_zero(s1, g));
            } else if m % 4 == 1 {
                assert(byte_or_zero(s, 3 * q + g) == byte_or_zero(s1, g));
                assert(byte_or_zero(s, 3 * q + g + 1) == byte_or_zero(s1, g + 1));
            } else if m % 4 == 2 {
                assert(byte_or_zero(s, 3 * q + g + 1) == byte_or_zero(s1, g + 1));
                assert(byte_or_zero(s, 3 * q + g + 2) == byte_or_zero(s1, g + 2));
            } else {
                assert(byte_or_zero(s, 3 * q + g + 2) == byte_or_zero(s1, g + 2));
            }
        }
        if v.len() > 0 {
            let last = v.len() - 1;
            assert(big[k0 + last] == v[last]);
            assert(k0 + v.len() - 1 < big.len());
            assert forall|t: int| 0 <= t < v.len() implies big.skip(k0).take(v.len() as int)[t] == v[t] by {
                assert(big[k0 + t] == v[t]);
            }
            assert(big.skip(k0).take(v.len() as int) =~= v);
            assert(is_prefix(v, big.skip(k0)));
        } else {
            assert(big.skip(0).take(0) =~= v);
            assert(is_prefix(v, big.skip(0)));
        }
    } else {
        assert(v =~= Seq::<char>::empty());
        assert(big.skip(0).take(0) =~= v);
        assert(is_prefix(v, big.skip(0)));
    }
}

/// The characters of character index `4q + m` depend on the bytes of index `m` shifted by `3q`.
proof fn lemma_shift_deps(q: int, m: int)
    requires
        q >= 0,
        m >= 0,
    ensures
        (4 * q + m) / 4 == q + m / 4,
        (4 * q + m) % 4 == m % 4,
        dep_lo(4 * q + m) == 3 * q + dep_lo(m),
        dep_hi(4 * q + m) == 3 * q + dep_hi(m),
{
    assert((4 * q + m) / 4 == q + m / 4) by (nonlinear_arith) requires q >= 0, m >= 0;
    assert((4 * q + m) % 4 == m % 4) by (nonlinear_arith) requires q >= 0, m >= 0;
}

/// The characters that `offset_variant` keeps depend only on the bytes of the value.
proof fn lemma_kept_deps(n: int, r: int, start: int, cut: int, m: int)
    requires
        0 <= r < 3,
        n >= r,
        start == (if r == 0 { 0int } else if r == 1 { 2int } else { 3int }),
        cut == (if n % 3 == 0 { 0int } else if n % 3 == 1 { 3int } else { 2int }),
        start <= m < 4 * ((n + 2) / 3) - cut,
    ensures
        r <= dep_lo(m),
        dep_hi(m) < n,
{
    assert(dep_lo(m) >= 3 * (m / 4));
    assert(dep_hi(m) <= 3 * (m / 4) + 2);
    if m >= 4 {
        assert(m / 4 >= 1);
    }
    let g = m / 4;
    assert(4 * g <= m < 4 * g + 4) by (nonlinear_arith) requires g == m / 4, m >= 0;
    let t = (n + 2) / 3;
    assert(3 * t <= n + 2 < 3 * t + 3) by (nonlinear_arith) requires t == (n + 2) / 3, n >= 0;
    assert(n % 3 == n - 3 * (n / 3)) by (nonlinear_arith) requires n >= 0;
}

} // verus!

verus! {

/// Without `cased`, string comparisons ignore ASCII case: two ASCII values that differ only
/// in the case of their letters match the same patterns.
pub proof fn law_ascii_case_ignored(m: Modifiers, p: Seq<char>, v: Seq<char>, w: Seq<char>)
    requires
        !m.cased,
        is_ascii_text(v),
        is_ascii_text(w),
        ascii_lower(v) == ascii_lower(w),
    ensures
        text_matches(m, p, v) == text_matches(m, p, w),
{
}

/// Without `cased`, a field condition on strings ignores the ASCII case of the event's
/// value, with or without base64 modifiers.
pub proof fn law_string_values_ignore_ascii_case(
    m: Modifiers,
    p: Seq<char>,
    rv: FieldValue,
    v: String,
    w: String,
    event: Seq<(String, FieldValue)>,
)
    requires
        !m.cased,
        m.kind == MatchKind::Equals || m.kind == MatchKind::Contains || m.kind == MatchKind::StartsWith
            || m.kind == MatchKind::EndsWith,
        rv matches FieldValue::Text(t) && t@ == p,
        is_ascii_text(v@),
        is_ascii_text(w@),
        ascii_lower(v@) == ascii_lower(w@),
    ensures
        value_accepts(m, rv, Some(FieldValue::Text(v)), event) == value_accepts(m, rv, Some(FieldValue::Text(w)), event),
{
    assert forall|q: Seq<char>| text_matches(m, q, v@) == text_matches(m, q, w@) by {
        law_ascii_case_ignored(m, q, v@, w@);
    }
}

} // verus!

verus! {

/// The earliest qualifying time is no later than any observation that qualifies.
proof fn lemma_earliest_at_most(obs: Seq<Obs>, span: int, i: int, r: int, after: Option<int>, n: int, j: int)
    requires
        0 <= j < n <= obs.len(),
        same_slot(obs, span, j, i),
        obs[j].rule_idx == r,
        after matches Some(a) ==> a < obs[j].time,
    ensures
        earliest_in_slot(obs, span, i, r, after, n) matches Some(t) && t <= obs[j].time,
    decreases n,
{
    if j < n - 1 {
        lemma_earliest_at_most(obs, span, i, r, after, n - 1, j);
    }
}

/// A chain of observations of the rules `r`, `r + 1`, ... at increasing times, all after
/// `after`, is followed at least as far by the ordered count.
proof fn lemma_progress_follows_chain(obs: Seq<Obs>, span: int, i: int, js: Seq<int>, r: int, after: Option<int>, nrules: int)
    requires
        0 <= r <= js.len() <= nrules,
        forall|m: int| 0 <= m < js.len() ==> 0 <= #[trigger] js[m] < obs.len() && same_slot(obs, span, js[m], i)
            && obs[js[m]].rule_idx == m,
        forall|m: int| 0 <= m && m + 1 < js.len() ==> obs[#[trigger] js[m]].time < obs[js[m + 1]].time,
        r < js.len() ==> (after matches Some(a) ==> a < obs[js[r]].time),
    ensures
        slot_progress(obs, span, i, r, after, nrules) >= js.len() - r,
    decreases nrules - r,
{
    if r < js.len() {
        let j = js[r];
        lemma_earliest_at_most(obs, span, i, r, after, obs.len() as int, j);
        let t = earliest_in_slot(obs, span, i, r, after, obs.len() as int)->Some_0;
        if r + 1 < js.len() {
            assert(obs[js[r]].time < obs[js[r + 1]].time);
        }
        lemma_progress_follows_chain(obs, span, i, js, r + 1, Some(t), nrules);
    }
}

/// `temporal_ordered` counts a chain: if, in the group and time window of observation `i`,
/// observations of the referenced rules `0, 1, ..., k - 1` (in their order) occur at strictly
/// increasing times, the ordered count of that slot is at least `k`, whatever other events of
/// those rules the slot also holds.
pub proof fn law_ordered_chain_is_counted(obs: Seq<Obs>, span: int, i: int, js: Seq<int>, nrules: int)
    requires
        0 <= i < obs.len(),
        js.len() <= nrules,
        forall|m: int| 0 <= m < js.len() ==> 0 <= #[trigger] js[m] < obs.len() && same_slot(obs, span, js[m], i)
            && obs[js[m]].rule_idx == m,
        forall|m: int| 0 <= m && m + 1 < js.len() ==> obs[#[trigger] js[m]].time < obs[js[m + 1]].time,
    ensures
        slot_chain(obs, span, i, nrules) >= js.len(),
{
    lemma_progress_follows_chain(obs, span, i, js, 0, None, nrules);
}

/// Some reference refers to `base` no later than one that does.
proof fn lemma_first_ref_exists(refs: Seq<String>, base: Rule, k: int)
    requires
        0 <= k < refs.len(),
        refers_to(refs[k]@, base),
    ensures
        exists|j: int| 0 <= j <= k && #[trigger] is_first_ref(refs, base, j),
    decreases k,
{
    if exists|j: int| 0 <= j < k && refers_to(#[trigger] refs[j]@, base) {
        let j = choose|j: int| 0 <= j < k && refers_to(#[trigger] refs[j]@, base);
        lemma_first_ref_exists(refs, base, j);
    } else {
        assert(is_first_ref(refs, base, k));
    }
}

/// A correlation section refers to a base rule by the rule's id, its name or its title: if
/// one of the section's references equals any of them, the section finds a reference to the
/// rule at or before it, and every event of that rule is observed by the section.
pub proof fn law_rule_referenced_by_id_name_or_title(sec: CorrelationSection, ev: TimestampedEvent, k: int)
    requires
        0 <= k < sec.rules@.len(),
        (ev.rule.id matches Some(s) && s@ == sec.rules@[k]@)
            || (ev.rule.name matches Some(s) && s@ == sec.rules@[k]@)
            || ev.rule.title@ == sec.rules@[k]@,
    ensures
        ref_index(sec.rules@, *ev.rule) matches Some(j) && 0 <= j <= k,
        observation(sec, ev) is Some,
{
    assert(refers_to(sec.rules@[k]@, *ev.rule));
    lemma_first_ref_exists(sec.rules@, *ev.rule, k);
    let j = choose|j: int| is_first_ref(sec.rules@, *ev.rule, j);
    if j > k {
        assert(!refers_to(sec.rules@[k]@, *ev.rule));
    }
}

/// Each bound of a correlation condition is read from the key of the same name: where the
/// section's `condition` mapping holds `gt: n`, the read condition has `gt == Some(n)`, and
/// likewise for `gte`, `lt`, `lte` and `eq`; an absent key gives no bound. With `gt: n` as the
/// only bound, a count meets the condition exactly when it exceeds `n`.
pub proof fn law_condition_bounds_by_name(sec: CorrelationSection, es: Vec<(FieldValue, FieldValue)>, ces: Vec<(FieldValue, FieldValue)>)
    requires
        section_reads(sec, FieldValue::Mapping(es)),
        map_lookup(es@, "condition"@) == Some(FieldValue::Mapping(ces)),
    ensures
        sec.condition is Some,
        map_lookup(ces@, "gt"@) matches Some(FieldValue::Int(n)) ==> sec.condition.unwrap().gt == Some(n as u64),
        map_lookup(ces@, "gte"@) matches Some(FieldValue::Int(n)) ==> sec.condition.unwrap().gte == Some(n as u64),
        map_lookup(ces@, "lt"@) matches Some(FieldValue::Int(n)) ==> sec.condition.unwrap().lt == Some(n as u64),
        map_lookup(ces@, "lte"@) matches Some(FieldValue::Int(n)) ==> sec.condition.unwrap().lte == Some(n as u64),
        map_lookup(ces@, "eq"@) matches Some(FieldValue::Int(n)) ==> sec.condition.unwrap().eq == Some(n as u64),
        map_lookup(ces@, "gt"@) is None ==> sec.condition.unwrap().gt is None,
        map_lookup(ces@, "gte"@) is None ==> sec.condition.unwrap().gte is None,
        map_lookup(ces@, "lt"@) is None ==> sec.condition.unwrap().lt is None,
        map_lookup(ces@, "lte"@) is None ==> sec.condition.unwrap().lte is None,
        map_lookup(ces@, "eq"@) is None ==> sec.condition.unwrap().eq is None,
        map_lookup(ces@, "gt"@) matches Some(FieldValue::Int(n)) ==> ((map_lookup(ces@, "gte"@) is None
            && map_lookup(ces@, "lt"@) is None && map_lookup(ces@, "lte"@) is None && map_lookup(ces@, "eq"@) is None)
            ==> forall|count: int| condition_holds(sec.condition.unwrap(), count) <==> count > n),
{
}

/// The token `w` as a word.
pub open spec fn word(w: Seq<char>) -> TokSpec {
    TokSpec::Word(w)
}

/// The selection named `n`.
pub open spec fn sel(n: Seq<char>) -> CondSpec {
    CondSpec::Selection(n)
}

/// `and` binds tighter than `or`, whichever comes first: for any selection names `x`, `y`
/// and `z`, `x or y and z` reads as `x or (y and z)` and `x and y or z` as `(x and y) or z`;
/// so the first holds wherever `x` does, and the second wherever `z` does.
pub proof fn law_and_binds_tighter_than_or(x: Seq<char>, y: Seq<char>, z: Seq<char>, names: Seq<Seq<char>>, results: Seq<bool>)
    requires
        !is_reserved(x),
        !is_reserved(y),
        !is_reserved(z),
    ensures
        parse_condition_spec(seq![word(x), word(kw_or()), word(y), word(kw_and()), word(z)])
            == Some(CondSpec::Or(Box::new(sel(x)), Box::new(CondSpec::And(Box::new(sel(y)), Box::new(sel(z)))))),
        parse_condition_spec(seq![word(x), word(kw_and()), word(y), word(kw_or()), word(z)])
            == Some(CondSpec::Or(Box::new(CondSpec::And(Box::new(sel(x)), Box::new(sel(y)))), Box::new(sel(z)))),
        cond_holds(sel(x), names, results) ==> cond_holds(
            CondSpec::Or(Box::new(sel(x)), Box::new(CondSpec::And(Box::new(sel(y)), Box::new(sel(z))))),
            names,
            results,
        ),
{
    reveal_with_fuel(crate::condition::or_tail, 3);
    reveal_with_fuel(crate::condition::and_tail, 3);
    let a = seq![word(x), word(kw_or()), word(y), word(kw_and()), word(z)];
    assert(kw_or() != kw_and()) by { assert(kw_or().len() != kw_and().len()); }
    assert(kw_or() != crate::condition::kw_of()) by { assert(kw_or()[1] != crate::condition::kw_of()[1]); }
    assert(kw_and() != crate::condition::kw_of()) by { assert(kw_and().len() != crate::condition::kw_of().len()); }
    assert(crate::condition::parse_unary(a, 0) == Some((sel(x), 1int)));
    assert(crate::condition::parse_and(a, 0) == Some((sel(x), 1int)));
    assert(crate::condition::parse_unary(a, 2) == Some((sel(y), 3int)));
    assert(crate::condition::parse_unary(a, 4) == Some((sel(z), 5int)));
    assert(crate::condition::parse_and(a, 2) == Some((CondSpec::And(Box::new(sel(y)), Box::new(sel(z))), 5int)));
    assert(crate::condition::parse_or(a, 0) == Some((CondSpec::Or(Box::new(sel(x)), Box::new(CondSpec::And(Box::new(sel(y)), Box::new(sel(z))))), 5int)));
    let b = seq![word(x), word(kw_and()), word(y), word(kw_or()), word(z)];
    assert(crate::condition::parse_unary(b, 0) == Some((sel(x), 1int)));
    assert(crate::condition::parse_unary(b, 2) == Some((sel(y), 3int)));
    assert(crate::condition::parse_and(b, 0) == Some((CondSpec::And(Box::new(sel(x)), Box::new(sel(y))), 3int)));
    assert(crate::condition::parse_unary(b, 4) == Some((sel(z), 5int)));
    assert(crate::condition::parse_and(b, 4) == Some((sel(z), 5int)));
    assert(crate::condition::parse_or(b, 0) == Some((CondSpec::Or(Box::new(CondSpec::And(Box::new(sel(x)), Box::new(sel(y)))), Box::new(sel(z))), 5int)));
}

/// Two field values that agree up to case: strings whose lowercase forms are equal, or
/// values that are equal.
pub open spec fn alike_but_case(a: FieldValue, b: FieldValue) -> bool {
    match (a, b) {
        (FieldValue::Text(s), FieldValue::Text(t)) => lowercase(s@) == lowercase(t@),
        _ => a == b,
    }
}

/// Keywords ignore case, on both sides: a keyword and a string value match exactly when any
/// other keyword and string value with the same lowercase forms do.
pub proof fn law_keyword_ignores_case(p: Seq<char>, q: Seq<char>, t: String, u: String)
    requires
        lowercase(p) == lowercase(q),
        lowercase(t@) == lowercase(u@),
    ensures
        keyword_hits_value(p, FieldValue::Text(t)) == keyword_hits_value(q, FieldValue::Text(u)),
{
}

/// A keyword hits two events alike when their fields agree up to the case of their strings.
pub proof fn law_keyword_events_ignore_case(k: FieldValue, e1: Seq<(String, FieldValue)>, e2: Seq<(String, FieldValue)>)
    requires
        e1.len() == e2.len(),
        forall|i: int| 0 <= i < e1.len() ==> alike_but_case(#[trigger] e1[i].1, e2[i].1),
    ensures
        keyword_hits(k, e1) == keyword_hits(k, e2),
{
    if let FieldValue::Text(p) = k {
        assert forall|i: int| 0 <= i < e1.len() implies keyword_hits_value(p@, #[trigger] e1[i].1) == keyword_hits_value(p@, e2[i].1) by {
            assert(alike_but_case(e1[i].1, e2[i].1));
        }
        if keyword_hits(k, e1) {
            let i = choose|i: int| 0 <= i < e1.len() && keyword_hits_value(p@, (#[trigger] e1[i]).1);
            assert(keyword_hits_value(p@, e2[i].1));
        }
        if keyword_hits(k, e2) {
            let i = choose|i: int| 0 <= i < e2.len() && keyword_hits_value(p@, (#[trigger] e2[i]).1);
            assert(keyword_hits_value(p@, e1[i].1));
        }
    }
}

} // verus!

verus! {

/// `w` can stand as one word of a condition: it is not empty and holds no space or
/// parenthesis.
pub open spec fn is_word_text(w: Seq<char>) -> bool {
    w.len() > 0 && forall|i: int| 0 <= i < w.len() ==> !is_delim(#[trigger] w[i])
}

/// The text `a op b`, with single spaces around the operator.
pub open spec fn infix_text(a: Seq<char>, op: Seq<char>, b: Seq<char>) -> Seq<char> {
    a + seq![' '] + op + seq![' '] + b
}

/// A word followed by a delimiter, or by nothing, is read whole.
proof fn lemma_word_len_of_word(w: Seq<char>, s: Seq<char>)
    requires
        forall|i: int| 0 <= i < w.len() ==> !is_delim(#[trigger] w[i]),
        s.len() == 0 || is_delim(s[0]),
    ensures
        word_len(w + s) == w.len(),
    decreases w.len(),
{
    if w.len() > 0 {
        assert((w + s).skip(1) =~= w.skip(1) + s);
        assert((w + s)[0] == w[0]);
        lemma_word_len_of_word(w.skip(1), s);
    } else {
        assert(w + s =~= s);
    }
}

/// A word followed by a delimiter, or by nothing, is one token.
proof fn lemma_word_token(w: Seq<char>, s: Seq<char>)
    requires
        is_word_text(w),
        s.len() == 0 || is_delim(s[0]),
    ensures
        cond_tokens(w + s) == seq![TokSpec::Word(w)] + cond_tokens(s),
{
    let t = w + s;
    assert(t[0] == w[0]);
    assert(t.skip(1) =~= w.skip(1) + s);
    lemma_word_len_of_word(w.skip(1), s);
    assert(t.take(w.len() as int) =~= w);
    assert(t.skip(w.len() as int) =~= s);
}

/// A leading space is skipped.
proof fn lemma_space_token(s: Seq<char>)
    ensures
        cond_tokens(seq![' '] + s) == cond_tokens(s),
{
    assert((seq![' '] + s).skip(1) =~= s);
}

/// `a op b` reads as the words `a` and `op` followed by the tokens of `b`.
proof fn lemma_infix_tokens(a: Seq<char>, op: Seq<char>, b: Seq<char>)
    requires
        is_word_text(a),
        is_word_text(op),
    ensures
        cond_tokens(infix_text(a, op, b)) == seq![TokSpec::Word(a), TokSpec::Word(op)] + cond_tokens(b),
{
    let rest2 = seq![' '] + b;
    let rest1 = seq![' '] + (op + rest2);
    assert(infix_text(a, op, b) =~= a + rest1);
    lemma_word_token(a, rest1);
    lemma_space_token(op + rest2);
    lemma_word_token(op, rest2);
    lemma_space_token(b);
    assert(seq![TokSpec::Word(a)] + (seq![TokSpec::Word(op)] + cond_tokens(b))
        =~= seq![TokSpec::Word(a), TokSpec::Word(op)] + cond_tokens(b));
}

/// The condition text `x or y and z` reads as `x or (y and z)`, and `x and y or z` as
/// `(x and y) or z`, for any selection names `x`, `y` and `z`.
pub proof fn law_condition_text_precedence(x: Seq<char>, y: Seq<char>, z: Seq<char>)
    requires
        is_word_text(x) && !is_reserved(x),
        is_word_text(y) && !is_reserved(y),
        is_word_text(z) && !is_reserved(z),
    ensures
        condition_of_text(infix_text(x, kw_or(), infix_text(y, kw_and(), z)))
            == Some(CondSpec::Or(Box::new(sel(x)), Box::new(CondSpec::And(Box::new(sel(y)), Box::new(sel(z)))))),
        condition_of_text(infix_text(x, kw_and(), infix_text(y, kw_or(), z)))
            == Some(CondSpec::Or(Box::new(CondSpec::And(Box::new(sel(x)), Box::new(sel(y)))), Box::new(sel(z)))),
{
    assert(is_word_text(kw_or()));
    assert(is_word_text(kw_and()));
    lemma_word_token(z, Seq::empty());
    assert(z + Seq::<char>::empty() =~= z);
    assert(seq![TokSpec::Word(z)] + cond_tokens(Seq::<char>::empty()) =~= seq![TokSpec::Word(z)]);
    lemma_infix_tokens(y, kw_and(), z);
    lemma_infix_tokens(x, kw_or(), infix_text(y, kw_and(), z));
    assert(cond_tokens(infix_text(x, kw_or(), infix_text(y, kw_and(), z)))
        =~= seq![word(x), word(kw_or()), word(y), word(kw_and()), word(z)]);
    lemma_infix_tokens(y, kw_or(), z);
    lemma_infix_tokens(x, kw_and(), infix_text(y, kw_or(), z));
    assert(cond_tokens(infix_text(x, kw_and(), infix_text(y, kw_or(), z)))
        =~= seq![word(x), word(kw_and()), word(y), word(kw_or()), word(z)]);
    law_and_binds_tighter_than_or(x, y, z, Seq::empty(), Seq::empty());
}

} // verus!

verus! {

/// `js` lists observations of the referenced rules `r`, `r + 1`, ... in the slot of
/// observation `i`, at strictly increasing times.
pub open spec fn is_ordered_chain(obs: Seq<Obs>, span: int, i: int, js: Seq<int>, r: int) -> bool {
    &&& forall|m: int| 0 <= m < js.len() ==> 0 <= #[trigger] js[m] < obs.len() && same_slot(obs, span, js[m], i)
        && obs[js[m]].rule_idx == r + m
    &&& forall|m: int| 0 <= m && m + 1 < js.len() ==> obs[#[trigger] js[m]].time < obs[js[m + 1]].time
}

/// A time that [`earliest_in_slot`] finds is the time of a qualifying observation.
proof fn lemma_earliest_witness(obs: Seq<Obs>, span: int, i: int, r: int, after: Option<int>, n: int)
    requires
        0 <= n <= obs.len(),
        earliest_in_slot(obs, span, i, r, after, n) is Some,
    ensures
        exists|j: int| 0 <= j < n && same_slot(obs, span, j, i) && obs[j].rule_idx == r
            && (after matches Some(a) ==> a < obs[j].time)
            && #[trigger] obs[j].time == earliest_in_slot(obs, span, i, r, after, n)->Some_0,
    decreases n,
{
    let m = earliest_in_slot(obs, span, i, r, after, n - 1);
    let o = obs[n - 1];
    if same_slot(obs, span, n - 1, i) && o.rule_idx == r && (after matches Some(a) ==> a < o.time) {
        match m {
            Some(t) => {
                if o.time < t {
                    assert(obs[n - 1].time == earliest_in_slot(obs, span, i, r, after, n)->Some_0);
                } else {
                    lemma_earliest_witness(obs, span, i, r, after, n - 1);
                }
            },
            None => {
                assert(obs[n - 1].time == earliest_in_slot(obs, span, i, r, after, n)->Some_0);
            },
        }
    } else {
        lemma_earliest_witness(obs, span, i, r, after, n - 1);
    }
}

/// The ordered count from rule `r` on is the length of a chain of observations that starts
/// after `after`.
proof fn lemma_progress_has_chain(obs: Seq<Obs>, span: int, i: int, r: int, after: Option<int>, nrules: int)
    ensures
        exists|js: Seq<int>| js.len() == slot_progress(obs, span, i, r, after, nrules)
            && #[trigger] is_ordered_chain(obs, span, i, js, r)
            && (js.len() > 0 ==> (after matches Some(a) ==> a < obs[js[0]].time)),
    decreases nrules - r,
{
    if r >= nrules || r < 0 {
        let js = Seq::<int>::empty();
        assert(is_ordered_chain(obs, span, i, js, r));
    } else {
        match earliest_in_slot(obs, span, i, r, after, obs.len() as int) {
            Some(t) => {
                lemma_earliest_witness(obs, span, i, r, after, obs.len() as int);
                let j = choose|j: int| 0 <= j < obs.len() && same_slot(obs, span, j, i) && obs[j].rule_idx == r
                    && (after matches Some(a) ==> a < obs[j].time)
                    && #[trigger] obs[j].time == earliest_in_slot(obs, span, i, r, after, obs.len() as int)->Some_0;
                lemma_progress_has_chain(obs, span, i, r + 1, Some(t), nrules);
                let rest = choose|js: Seq<int>| js.len() == slot_progress(obs, span, i, r + 1, Some(t), nrules)
                    && #[trigger] is_ordered_chain(obs, span, i, js, r + 1)
                    && (js.len() > 0 ==> (Some(t) matches Some(a) ==> a < obs[js[0]].time));
                let js = seq![j] + rest;
                assert forall|m: int| 0 <= m < js.len() implies 0 <= #[trigger] js[m] < obs.len() && same_slot(obs, span, js[m], i)
                    && obs[js[m]].rule_idx == r + m by {
                    if m > 0 {
                        assert(js[m] == rest[m - 1]);
                    }
                }
                assert forall|m: int| 0 <= m && m + 1 < js.len() implies obs[#[trigger] js[m]].time < obs[js[m + 1]].time by {
                    assert(js[m + 1] == rest[m]);
                    if m > 0 {
                        assert(js[m] == rest[m - 1]);
                    }
                }
                assert(is_ordered_chain(obs, span, i, js, r));
            },
            None => {
                let js = Seq::<int>::empty();
                assert(is_ordered_chain(obs, span, i, js, r));
            },
        }
    }
}

/// `temporal_ordered` counts nothing that did not happen in order: its count for the slot of
/// observation `i` is the length of a chain of observations of the referenced rules `0, 1,
/// ...`, in that order, in the slot, at strictly increasing times. With
/// [`law_ordered_chain_is_counted`], the count is the length of the longest such chain.
pub proof fn law_ordered_count_has_chain(obs: Seq<Obs>, span: int, i: int, nrules: int)
    ensures
        exists|js: Seq<int>| js.len() == slot_chain(obs, span, i, nrules) && #[trigger] is_ordered_chain(obs, span, i, js, 0),
{
    lemma_progress_has_chain(obs, span, i, 0, None, nrules);
}

} // verus!
