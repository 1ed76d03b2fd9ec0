//! How correlation rules, and the base rules beside them, are read from YAML.
use vstd::prelude::*;
use crate::backends::{
    parse_yaml, parse_yaml_documents, yaml_document, yaml_documents, yaml_error_text, yaml_stream_error_text,
};
use crate::correlation::{
    AggregationKey, CorrelationCondition, CorrelationError, CorrelationSection, CorrelationType,
    FieldAliases, SigmaCorrelationRule,
};
use crate::event::{lookup_map, map_lookup, FieldValue};
use crate::rule::{
    is_text, opt_text_ok, opt_text_reads, read_opt_text, read_tags, rule_from_value, rule_ok,
    rule_reads, tags_ok, tags_reads, text_reads, Rule, RuleError,
};

verus! {

/// The correlation type that its YAML name stands for.
pub open spec fn type_of_text(t: Seq<char>) -> Option<CorrelationType> {
    if t == "event_count"@ {
        Some(CorrelationType::EventCount)
    } else if t == "value_count"@ {
        Some(CorrelationType::ValueCount)
    } else if t == "temporal"@ {
        Some(CorrelationType::Temporal)
    } else if t == "temporal_ordered"@ {
        Some(CorrelationType::TemporalOrdered)
    } else {
        None
    }
}

/// The correlation type of a YAML value.
pub open spec fn type_entry(v: Option<FieldValue>) -> Option<CorrelationType> {
    match v {
        Some(FieldValue::Text(t)) => type_of_text(t@),
        _ => None,
    }
}

/// A list of names: one string, or a list of strings.
pub open spec fn text_list_ok(v: FieldValue) -> bool {
    match v {
        FieldValue::Text(_) => true,
        FieldValue::Sequence(items) => forall|i: int| 0 <= i < items@.len() ==> is_text(#[trigger] items@[i]),
        _ => false,
    }
}

/// `l` is what the list of names `v` reads as: a single string becomes a list of one.
pub open spec fn text_list_reads(l: Seq<String>, v: FieldValue) -> bool {
    &&& text_list_ok(v)
    &&& match v {
        FieldValue::Text(t) => l.len() == 1 && l[0]@ == t@,
        FieldValue::Sequence(items) => l.len() == items@.len() && forall|i: int| 0 <= i < l.len()
            ==> text_reads(#[trigger] l[i], items@[i]),
        _ => false,
    }
}

/// The grouping entry: `group-by`, or else `group_by`.
pub open spec fn group_by_entry(es: Seq<(FieldValue, FieldValue)>) -> Option<FieldValue> {
    match map_lookup(es, "group-by"@) {
        Some(v) => Some(v),
        None => map_lookup(es, "group_by"@),
    }
}

/// The grouping is given at most once (`group-by` and its spelling `group_by` may not both
/// appear) and reads as an optional list of names.
pub open spec fn group_by_ok(es: Seq<(FieldValue, FieldValue)>) -> bool {
    &&& !(map_lookup(es, "group-by"@) is Some && map_lookup(es, "group_by"@) is Some)
    &&& opt_list_ok(group_by_entry(es))
}

/// An optional list of names: absent, null, or a list of names.
pub open spec fn opt_list_ok(v: Option<FieldValue>) -> bool {
    match v {
        None => true,
        Some(FieldValue::Null) => true,
        Some(x) => text_list_ok(x),
    }
}

/// `o` is what the optional list of names `v` reads as.
pub open spec fn opt_list_reads(o: Option<Vec<String>>, v: Option<FieldValue>) -> bool {
    &&& opt_list_ok(v)
    &&& match v {
        None => o is None,
        Some(FieldValue::Null) => o is None,
        Some(x) => match o {
            Some(l) => text_list_reads(l@, x),
            None => false,
        },
    }
}

/// A bound of a condition: absent, null, or a non-negative integer.
pub open spec fn bound_ok(v: Option<FieldValue>) -> bool {
    match v {
        None => true,
        Some(FieldValue::Null) => true,
        Some(FieldValue::Int(i)) => 0 <= i <= u64::MAX,
        _ => false,
    }
}

/// `b` is what the bound `v` reads as.
pub open spec fn bound_reads(b: Option<u64>, v: Option<FieldValue>) -> bool {
    match v {
        Some(FieldValue::Int(i)) => 0 <= i <= u64::MAX && b == Some(i as u64),
        None => b is None,
        Some(FieldValue::Null) => b is None,
        _ => false,
    }
}

/// The `condition` entry: absent, null, or a mapping of bounds and an optional field.
pub open spec fn cond_ok(v: Option<FieldValue>) -> bool {
    match v {
        None => true,
        Some(FieldValue::Null) => true,
        Some(FieldValue::Mapping(es)) => {
            &&& bound_ok(map_lookup(es@, "gte"@))
            &&& bound_ok(map_lookup(es@, "lte"@))
            &&& bound_ok(map_lookup(es@, "eq"@))
            &&& bound_ok(map_lookup(es@, "gt"@))
            &&& bound_ok(map_lookup(es@, "lt"@))
            &&& opt_text_ok(map_lookup(es@, "field"@))
        },
        _ => false,
    }
}

/// `c` is what the `condition` entry reads as.
pub open spec fn cond_reads(c: Option<CorrelationCondition>, v: Option<FieldValue>) -> bool {
    &&& cond_ok(v)
    &&& match v {
        Some(FieldValue::Mapping(es)) => match c {
            Some(cc) => {
                &&& bound_reads(cc.gte, map_lookup(es@, "gte"@))
                &&& bound_reads(cc.lte, map_lookup(es@, "lte"@))
                &&& bound_reads(cc.eq, map_lookup(es@, "eq"@))
                &&& bound_reads(cc.gt, map_lookup(es@, "gt"@))
                &&& bound_reads(cc.lt, map_lookup(es@, "lt"@))
                &&& opt_text_reads(cc.field, map_lookup(es@, "field"@))
            },
            None => false,
        },
        _ => c is None,
    }
}

/// The `generate` entry: absent, null or a boolean.
pub open spec fn generate_ok(v: Option<FieldValue>) -> bool {
    match v {
        None => true,
        Some(FieldValue::Null) => true,
        Some(FieldValue::Bool(_)) => true,
        _ => false,
    }
}

/// `g` is what the `generate` entry reads as.
pub open spec fn generate_reads(g: Option<bool>, v: Option<FieldValue>) -> bool {
    match v {
        Some(FieldValue::Bool(b)) => g == Some(b),
        _ => g is None,
    }
}

/// The value is the string `k`.
pub open spec fn is_key(v: FieldValue, k: Seq<char>) -> bool {
    match v {
        FieldValue::Text(s) => s@ == k,
        _ => false,
    }
}

/// The table of aliases: the mapping itself, or, in the older form, the mapping under its
/// only key `aliases`.
pub open spec fn alias_table(v: FieldValue) -> Option<Seq<(FieldValue, FieldValue)>> {
    match v {
        FieldValue::Mapping(es) => if es@.len() == 1 && is_key(es@[0].0, "aliases"@) && es@[0].1 is Mapping {
            Some(es@[0].1->Mapping_0@)
        } else {
            Some(es@)
        },
        _ => None,
    }
}

/// The entry maps a rule name to a field name.
pub open spec fn rule_field_ok(e: (FieldValue, FieldValue)) -> bool {
    e.0 is Text && e.1 is Text
}

/// The entry maps an alias to a mapping from rule names to field names.
pub open spec fn alias_ok(e: (FieldValue, FieldValue)) -> bool {
    &&& e.0 is Text
    &&& e.1 matches FieldValue::Mapping(m)
    &&& forall|j: int| 0 <= j < m@.len() ==> rule_field_ok(#[trigger] m@[j])
}

/// Every entry of the table is an alias.
pub open spec fn table_ok(t: Seq<(FieldValue, FieldValue)>) -> bool {
    forall|i: int| 0 <= i < t.len() ==> alias_ok(#[trigger] t[i])
}

/// The `aliases` entry: absent, null, or a table of aliases.
pub open spec fn aliases_ok(v: Option<FieldValue>) -> bool {
    match v {
        None => true,
        Some(FieldValue::Null) => true,
        Some(x) => match alias_table(x) {
            Some(t) => table_ok(t),
            None => false,
        },
    }
}

/// The pair reads from the rule-to-field entry.
pub open spec fn rule_field_reads(p: (String, String), e: (FieldValue, FieldValue)) -> bool {
    text_reads(p.0, e.0) && text_reads(p.1, e.1)
}

/// The alias reads from the alias entry.
pub open spec fn alias_reads(a: (String, Vec<(String, String)>), e: (FieldValue, FieldValue)) -> bool {
    &&& text_reads(a.0, e.0)
    &&& match e.1 {
        FieldValue::Mapping(m) => a.1@.len() == m@.len() && forall|j: int| 0 <= j < m@.len()
            ==> rule_field_reads(#[trigger] a.1@[j], m@[j]),
        _ => false,
    }
}

/// `a` is what the `aliases` entry reads as.
pub open spec fn aliases_reads(a: Option<FieldAliases>, v: Option<FieldValue>) -> bool {
    &&& aliases_ok(v)
    &&& match v {
        None => a is None,
        Some(FieldValue::Null) => a is None,
        Some(x) => match (a, alias_table(x)) {
            (Some(fa), Some(t)) => fa.aliases@.len() == t.len() && forall|i: int| 0 <= i < t.len()
                ==> alias_reads(#[trigger] fa.aliases@[i], t[i]),
            _ => false,
        },
    }
}

/// Whether the YAML value reads as a `correlation` section: a known `type`, the `rules`, a
/// string `timespan`, and valid optional `group-by`, `condition`, `generate` and `aliases`.
pub open spec fn section_tree_ok(v: FieldValue) -> bool {
    match v {
        FieldValue::Mapping(es) => {
            &&& type_entry(map_lookup(es@, "type"@)) is Some
            &&& map_lookup(es@, "rules"@) matches Some(r)
            &&& text_list_ok(r)
            &&& group_by_ok(es@)
            &&& map_lookup(es@, "timespan"@) matches Some(FieldValue::Text(_))
            &&& cond_ok(map_lookup(es@, "condition"@))
            &&& generate_ok(map_lookup(es@, "generate"@))
            &&& aliases_ok(map_lookup(es@, "aliases"@))
        },
        _ => false,
    }
}

/// `sec` is what the YAML value reads as (see [`section_tree_ok`]).
pub open spec fn section_reads(sec: CorrelationSection, v: FieldValue) -> bool {
    &&& section_tree_ok(v)
    &&& match v {
        FieldValue::Mapping(es) => {
            &&& type_entry(map_lookup(es@, "type"@)) == Some(sec.correlation_type)
            &&& map_lookup(es@, "rules"@) matches Some(r) && text_list_reads(sec.rules@, r)
            &&& opt_list_reads(sec.group_by, group_by_entry(es@))
            &&& map_lookup(es@, "timespan"@) matches Some(t) && text_reads(sec.timespan, t)
            &&& cond_reads(sec.condition, map_lookup(es@, "condition"@))
            &&& generate_reads(sec.generate, map_lookup(es@, "generate"@))
            &&& aliases_reads(sec.aliases, map_lookup(es@, "aliases"@))
        },
        _ => false,
    }
}

/// Whether the YAML tree reads as a correlation rule: a string `title`, optional `id`,
/// `name`, `status`, `description`, `level` and `tags`, and a `correlation` section.
pub open spec fn correlation_rule_ok(tree: FieldValue) -> bool {
    match tree {
        FieldValue::Mapping(es) => {
            &&& map_lookup(es@, "title"@) matches Some(FieldValue::Text(_))
            &&& opt_text_ok(map_lookup(es@, "id"@))
            &&& opt_text_ok(map_lookup(es@, "name"@))
            &&& opt_text_ok(map_lookup(es@, "status"@))
            &&& opt_text_ok(map_lookup(es@, "description"@))
            &&& opt_text_ok(map_lookup(es@, "level"@))
            &&& tags_ok(map_lookup(es@, "tags"@))
            &&& map_lookup(es@, "correlation"@) matches Some(c)
            &&& section_tree_ok(c)
        },
        _ => false,
    }
}

/// `r` is what the YAML tree reads as (see [`correlation_rule_ok`]).
pub open spec fn correlation_rule_reads(r: SigmaCorrelationRule, tree: FieldValue) -> bool {
    &&& correlation_rule_ok(tree)
    &&& match tree {
        FieldValue::Mapping(es) => {
            &&& map_lookup(es@, "title"@) matches Some(t) && text_reads(r.title, t)
            &&& opt_text_reads(r.id, map_lookup(es@, "id"@))
            &&& opt_text_reads(r.name, map_lookup(es@, "name"@))
            &&& opt_text_reads(r.status, map_lookup(es@, "status"@))
            &&& opt_text_reads(r.description, map_lookup(es@, "description"@))
            &&& opt_text_reads(r.level, map_lookup(es@, "level"@))
            &&& tags_reads(r.tags@, map_lookup(es@, "tags"@))
            &&& map_lookup(es@, "correlation"@) matches Some(c) && section_reads(r.correlation, c)
        },
        _ => false,
    }
}

/// The error names the part `part`.
pub open spec fn names_part(e: CorrelationError, part: Seq<char>) -> bool {
    e matches CorrelationError::InvalidRule(m) && m@ == part
}

/// The part of a `condition` entry that does not read: the first bound that is not a
/// non-negative integer, then the field; a value of the wrong shape is the entry itself.
pub open spec fn cond_error_part(v: Option<FieldValue>) -> Seq<char> {
    match v {
        Some(FieldValue::Mapping(es)) => if !bound_ok(map_lookup(es@, "gte"@)) {
            "gte"@
        } else if !bound_ok(map_lookup(es@, "lte"@)) {
            "lte"@
        } else if !bound_ok(map_lookup(es@, "eq"@)) {
            "eq"@
        } else if !bound_ok(map_lookup(es@, "gt"@)) {
            "gt"@
        } else if !bound_ok(map_lookup(es@, "lt"@)) {
            "lt"@
        } else {
            "condition.field"@
        },
        _ => "condition"@,
    }
}

/// The first part of a `correlation` section that does not read, in the order `type`,
/// `rules`, `group-by`, `timespan`, `condition`, `generate`, `aliases`.
pub open spec fn section_error_part(v: FieldValue) -> Seq<char> {
    match v {
        FieldValue::Mapping(es) => if type_entry(map_lookup(es@, "type"@)) is None {
            "type"@
        } else if !(map_lookup(es@, "rules"@) matches Some(r) && text_list_ok(r)) {
            "rules"@
        } else if !group_by_ok(es@) {
            "group-by"@
        } else if !(map_lookup(es@, "timespan"@) matches Some(FieldValue::Text(_))) {
            "timespan"@
        } else if !cond_ok(map_lookup(es@, "condition"@)) {
            cond_error_part(map_lookup(es@, "condition"@))
        } else if !generate_ok(map_lookup(es@, "generate"@)) {
            "generate"@
        } else {
            "aliases"@
        },
        _ => "correlation"@,
    }
}

/// The first part of a correlation rule that does not read, in the order `title`, `id`,
/// `name`, `status`, `description`, `level`, `tags`, `correlation`.
pub open spec fn correlation_error_part(tree: FieldValue) -> Seq<char> {
    match tree {
        FieldValue::Mapping(es) => if !(map_lookup(es@, "title"@) matches Some(FieldValue::Text(_))) {
            "title"@
        } else if !opt_text_ok(map_lookup(es@, "id"@)) {
            "id"@
        } else if !opt_text_ok(map_lookup(es@, "name"@)) {
            "name"@
        } else if !opt_text_ok(map_lookup(es@, "status"@)) {
            "status"@
        } else if !opt_text_ok(map_lookup(es@, "description"@)) {
            "description"@
        } else if !opt_text_ok(map_lookup(es@, "level"@)) {
            "level"@
        } else if !tags_ok(map_lookup(es@, "tags"@)) {
            "tags"@
        } else {
            match map_lookup(es@, "correlation"@) {
                Some(c) => section_error_part(c),
                None => "correlation"@,
            }
        },
        _ => "the rule is not a mapping"@,
    }
}

/// The document is a correlation rule: a mapping with a `correlation` entry.
pub open spec fn is_correlation_doc(d: FieldValue) -> bool {
    d matches FieldValue::Mapping(es) && map_lookup(es@, "correlation"@) is Some
}

/// The document can be read: it is empty, a correlation rule, or a base rule.
pub open spec fn doc_ok(d: FieldValue) -> bool {
    if d is Null {
        true
    } else if is_correlation_doc(d) {
        correlation_rule_ok(d)
    } else {
        rule_ok(d)
    }
}

/// Every document of the stream can be read.
pub open spec fn docs_ok(docs: Seq<FieldValue>) -> bool {
    forall|i: int| 0 <= i < docs.len() ==> doc_ok(#[trigger] docs[i])
}

/// Document `k` is the first that cannot be read.
pub open spec fn first_bad_doc(docs: Seq<FieldValue>, k: int) -> bool {
    &&& 0 <= k < docs.len()
    &&& !doc_ok(docs[k])
    &&& forall|j: int| 0 <= j < k ==> doc_ok(#[trigger] docs[j])
}

/// What the error names for a stream with a document that cannot be read: the part of the
/// first such document if it is a correlation rule, and `a base rule` otherwise.
pub open spec fn docs_error_part(docs: Seq<FieldValue>) -> Seq<char> {
    let k = choose|k: int| first_bad_doc(docs, k);
    if is_correlation_doc(docs[k]) { correlation_error_part(docs[k]) } else { "a base rule"@ }
}

/// A stream with a bad document has exactly one first bad document.
proof fn lemma_first_bad_doc(docs: Seq<FieldValue>, k: int)
    requires
        first_bad_doc(docs, k),
    ensures
        (choose|j: int| first_bad_doc(docs, j)) == k,
{
    let j = choose|j: int| first_bad_doc(docs, j);
    assert(first_bad_doc(docs, j));
    if j < k {
        assert(doc_ok(docs[j]));
    }
    if k < j {
        assert(doc_ok(docs[k]));
    }
}

/// The name under which a base rule is listed: its `name`, else its `id`, else its title.
pub open spec fn base_rule_key(r: Rule) -> Seq<char> {
    match r.name {
        Some(n) => n@,
        None => match r.id {
            Some(i) => i@,
            None => r.title@,
        },
    }
}

/// `corrs` and `bases` are what the documents read as, in order: an empty document is
/// skipped, a correlation rule goes to `corrs`, and any other document is a base rule that
/// goes to `bases` under its [`base_rule_key`].
pub open spec fn docs_read(corrs: Seq<SigmaCorrelationRule>, bases: Seq<(String, Rule)>, docs: Seq<FieldValue>) -> bool
    decreases docs.len(),
{
    if docs.len() == 0 {
        corrs.len() == 0 && bases.len() == 0
    } else {
        let d = docs.last();
        if d is Null {
            docs_read(corrs, bases, docs.drop_last())
        } else if is_correlation_doc(d) {
            &&& corrs.len() > 0
            &&& correlation_rule_reads(corrs.last(), d)
            &&& docs_read(corrs.drop_last(), bases, docs.drop_last())
        } else {
            &&& bases.len() > 0
            &&& rule_reads(bases.last().1, d)
            &&& bases.last().0@ == base_rule_key(bases.last().1)
            &&& docs_read(corrs, bases.drop_last(), docs.drop_last())
        }
    }
}

} // verus!

verus! {

/// Reads a list of names (see [`text_list_reads`]).
#[verifier::loop_isolation(false)]
fn read_text_list(v: &FieldValue, what: &str) -> (res: Result<Vec<String>, CorrelationError>)
    ensures
        match res {
            Ok(l) => text_list_reads(l@, *v),
            Err(e) => !text_list_ok(*v) && names_part(e, what@),
        },
{
    let mut l: Vec<String> = Vec::new();
    match v {
        FieldValue::Text(t) => {
            l.push(t.clone());
            Ok(l)
        },
        FieldValue::Sequence(items) => {
            let mut i: usize = 0;
            while i < items.len()
                invariant
                    0 <= i <= items@.len(),
                    l@.len() == i,
                    forall|j: int| 0 <= j < i ==> is_text(#[trigger] items@[j]),
                    forall|j: int| 0 <= j < i ==> text_reads(#[trigger] l@[j], items@[j]),
                decreases items@.len() - i,
            {
                match &items[i] {
                    FieldValue::Text(t) => {
                        l.push(t.clone());
                    },
                    _ => {
                        assert(!is_text(items@[i as int]));
                        return Err(CorrelationError::InvalidRule(what.to_owned()));
                    },
                }
                i = i + 1;
            }
            Ok(l)
        },
        _ => Err(CorrelationError::InvalidRule(what.to_owned())),
    }
}

/// Reads the grouping entry (see [`opt_list_reads`]).
fn read_group_by(es: &Vec<(FieldValue, FieldValue)>) -> (res: Result<Option<Vec<String>>, CorrelationError>)
    ensures
        match res {
            Ok(o) => group_by_ok(es@) && opt_list_reads(o, group_by_entry(es@)),
            Err(e) => !group_by_ok(es@) && names_part(e, "group-by"@),
        },
{
    let k1 = "group-by".to_owned();
    let k2 = "group_by".to_owned();
    let spec_key = lookup_map(es, &k1);
    let alias_key = lookup_map(es, &k2);
    if spec_key.is_some() && alias_key.is_some() {
        return Err(CorrelationError::InvalidRule(k1));
    }
    let entry = match spec_key {
        Some(v) => Some(v),
        None => alias_key,
    };
    match entry {
        None => Ok(None),
        Some(FieldValue::Null) => Ok(None),
        Some(x) => {
            let l = read_text_list(x, "group-by")?;
            Ok(Some(l))
        },
    }
}

/// Reads the bound `key` of a condition mapping (see [`bound_reads`]).
fn read_bound(es: &Vec<(FieldValue, FieldValue)>, key: &str) -> (res: Result<Option<u64>, CorrelationError>)
    ensures
        match res {
            Ok(b) => bound_reads(b, map_lookup(es@, key@)),
            Err(e) => !bound_ok(map_lookup(es@, key@)) && names_part(e, key@),
        },
{
    let k = key.to_owned();
    match lookup_map(es, &k) {
        None => Ok(None),
        Some(FieldValue::Null) => Ok(None),
        Some(FieldValue::Int(i)) => {
            if *i >= 0 && *i <= 0xFFFF_FFFF_FFFF_FFFF {
                Ok(Some(*i as u64))
            } else {
                Err(CorrelationError::InvalidRule(k))
            }
        },
        _ => Err(CorrelationError::InvalidRule(k)),
    }
}

/// Reads the `condition` entry (see [`cond_reads`]).
fn read_condition(es: &Vec<(FieldValue, FieldValue)>) -> (res: Result<Option<CorrelationCondition>, CorrelationError>)
    ensures
        match res {
            Ok(c) => cond_reads(c, map_lookup(es@, "condition"@)),
            Err(e) => !cond_ok(map_lookup(es@, "condition"@))
                && names_part(e, cond_error_part(map_lookup(es@, "condition"@))),
        },
{
    let k = "condition".to_owned();
    match lookup_map(es, &k) {
        None => Ok(None),
        Some(FieldValue::Null) => Ok(None),
        Some(FieldValue::Mapping(m)) => {
            let gte = read_bound(m, "gte")?;
            let lte = read_bound(m, "lte")?;
            let eq = read_bound(m, "eq")?;
            let gt = read_bound(m, "gt")?;
            let lt = read_bound(m, "lt")?;
            let field = match read_opt_text(m, "field") {
                Ok(f) => f,
                Err(_) => {
                    return Err(CorrelationError::InvalidRule("condition.field".to_owned()));
                },
            };
            Ok(Some(CorrelationCondition { gte, lte, eq, gt, lt, field }))
        },
        _ => Err(CorrelationError::InvalidRule(k)),
    }
}

/// Reads the `generate` entry (see [`generate_reads`]).
fn read_generate(es: &Vec<(FieldValue, FieldValue)>) -> (res: Result<Option<bool>, CorrelationError>)
    ensures
        match res {
            Ok(g) => generate_ok(map_lookup(es@, "generate"@)) && generate_reads(g, map_lookup(es@, "generate"@)),
            Err(e) => !generate_ok(map_lookup(es@, "generate"@)) && names_part(e, "generate"@),
        },
{
    let k = "generate".to_owned();
    match lookup_map(es, &k) {
        None => Ok(None),
        Some(FieldValue::Null) => Ok(None),
        Some(FieldValue::Bool(b)) => Ok(Some(*b)),
        _ => Err(CorrelationError::InvalidRule(k)),
    }
}

/// Reads one alias entry (see [`alias_reads`]).
#[verifier::loop_isolation(false)]
fn read_alias(e: &(FieldValue, FieldValue)) -> (res: Result<(String, Vec<(String, String)>), CorrelationError>)
    ensures
        match res {
            Ok(a) => alias_ok(*e) && alias_reads(a, *e),
            Err(err) => !alias_ok(*e) && names_part(err, "aliases"@),
        },
{
    let name = match &e.0 {
        FieldValue::Text(t) => t.clone(),
        _ => {
            return Err(CorrelationError::InvalidRule("aliases".to_owned()));
        },
    };
    match &e.1 {
        FieldValue::Mapping(m) => {
            let mut pairs: Vec<(String, String)> = Vec::new();
            let mut j: usize = 0;
            while j < m.len()
                invariant
                    0 <= j <= m@.len(),
                    pairs@.len() == j,
                    forall|q: int| 0 <= q < j ==> rule_field_ok(#[trigger] m@[q]),
                    forall|q: int| 0 <= q < j ==> rule_field_reads(#[trigger] pairs@[q], m@[q]),
                decreases m@.len() - j,
            {
                match (&m[j].0, &m[j].1) {
                    (FieldValue::Text(r), FieldValue::Text(f)) => {
                        pairs.push((r.clone(), f.clone()));
                    },
                    _ => {
                        assert(!rule_field_ok(m@[j as int]));
                        return Err(CorrelationError::InvalidRule("aliases".to_owned()));
                    },
                }
                j = j + 1;
            }
            Ok((name, pairs))
        },
        _ => Err(CorrelationError::InvalidRule("aliases".to_owned())),
    }
}

/// The alias table of a value (see [`alias_table`]).
fn table_of<'a>(v: &'a FieldValue) -> (res: Option<&'a Vec<(FieldValue, FieldValue)>>)
    ensures
        match res {
            Some(t) => alias_table(*v) == Some(t@),
            None => alias_table(*v) is None,
        },
{
    match v {
        FieldValue::Mapping(es) => {
            if es.len() == 1 {
                let ak = "aliases".to_owned();
                let first_is_key = match &es[0].0 {
                    FieldValue::Text(k) => *k == ak,
                    _ => false,
                };
                if first_is_key {
                    match &es[0].1 {
                        FieldValue::Mapping(inner) => {
                            return Some(inner);
                        },
                        _ => {},
                    }
                }
            }
            Some(es)
        },
        _ => None,
    }
}

/// Reads the `aliases` entry (see [`aliases_reads`]).
#[verifier::loop_isolation(false)]
fn read_aliases(es: &Vec<(FieldValue, FieldValue)>) -> (res: Result<Option<FieldAliases>, CorrelationError>)
    ensures
        match res {
            Ok(a) => aliases_reads(a, map_lookup(es@, "aliases"@)),
            Err(e) => !aliases_ok(map_lookup(es@, "aliases"@)) && names_part(e, "aliases"@),
        },
{
    let k = "aliases".to_owned();
    match lookup_map(es, &k) {
        None => Ok(None),
        Some(FieldValue::Null) => Ok(None),
        Some(x) => match table_of(x) {
            Some(t) => {
                let mut aliases: Vec<(String, Vec<(String, String)>)> = Vec::new();
                let mut i: usize = 0;
                while i < t.len()
                    invariant
                        0 <= i <= t@.len(),
                        aliases@.len() == i,
                        forall|q: int| 0 <= q < i ==> alias_ok(#[trigger] t@[q]),
                        forall|q: int| 0 <= q < i ==> alias_reads(#[trigger] aliases@[q], t@[q]),
                    decreases t@.len() - i,
                {
                    match read_alias(&t[i]) {
                        Ok(a) => {
                            aliases.push(a);
                        },
                        Err(e) => {
                            assert(!table_ok(t@));
                            return Err(e);
                        },
                    }
                    i = i + 1;
                }
                Ok(Some(FieldAliases { aliases }))
            },
            None => Err(CorrelationError::InvalidRule(k)),
        },
    }
}

/// Reads a `correlation` section (see [`section_reads`]).
pub fn section_from_value(v: &FieldValue) -> (res: Result<CorrelationSection, CorrelationError>)
    ensures
        match res {
            Ok(sec) => section_reads(sec, *v),
            Err(e) => !section_tree_ok(*v) && names_part(e, section_error_part(*v)),
        },
{
    match v {
        FieldValue::Mapping(es) => {
            let tk = "type".to_owned();
            let correlation_type = match lookup_map(es, &tk) {
                Some(FieldValue::Text(t)) => {
                    if *t == "event_count".to_owned() {
                        CorrelationType::EventCount
                    } else if *t == "value_count".to_owned() {
                        CorrelationType::ValueCount
                    } else if *t == "temporal".to_owned() {
                        CorrelationType::Temporal
                    } else if *t == "temporal_ordered".to_owned() {
                        CorrelationType::TemporalOrdered
                    } else {
                        return Err(CorrelationError::InvalidRule(tk));
                    }
                },
                _ => {
                    return Err(CorrelationError::InvalidRule(tk));
                },
            };
            let rk = "rules".to_owned();
            let rules = match lookup_map(es, &rk) {
                Some(r) => read_text_list(r, "rules")?,
                None => {
                    return Err(CorrelationError::InvalidRule(rk));
                },
            };
            let group_by = read_group_by(es)?;
            let sk = "timespan".to_owned();
            let timespan = match lookup_map(es, &sk) {
                Some(FieldValue::Text(t)) => t.clone(),
                _ => {
                    return Err(CorrelationError::InvalidRule(sk));
                },
            };
            let condition = read_condition(es)?;
            let generate = read_generate(es)?;
            let aliases = read_aliases(es)?;
            Ok(CorrelationSection { correlation_type, rules, group_by, timespan, condition, generate, aliases })
        },
        _ => Err(CorrelationError::InvalidRule("correlation".to_owned())),
    }
}

/// Reads a correlation rule from its YAML tree (see [`correlation_rule_reads`]).
pub fn correlation_rule_from_value(tree: &FieldValue) -> (res: Result<SigmaCorrelationRule, CorrelationError>)
    ensures
        match res {
            Ok(r) => correlation_rule_reads(r, *tree),
            Err(e) => !correlation_rule_ok(*tree) && names_part(e, correlation_error_part(*tree)),
        },
{
    match tree {
        FieldValue::Mapping(es) => {
            let tk = "title".to_owned();
            let title = match lookup_map(es, &tk) {
                Some(FieldValue::Text(t)) => t.clone(),
                _ => {
                    return Err(CorrelationError::InvalidRule(tk));
                },
            };
            let id = match read_opt_text(es, "id") {
                Ok(x) => x,
                Err(_) => {
                    return Err(CorrelationError::InvalidRule("id".to_owned()));
                },
            };
            let name = match read_opt_text(es, "name") {
                Ok(x) => x,
                Err(_) => {
                    return Err(CorrelationError::InvalidRule("name".to_owned()));
                },
            };
            let status = match read_opt_text(es, "status") {
                Ok(x) => x,
                Err(_) => {
                    return Err(CorrelationError::InvalidRule("status".to_owned()));
                },
            };
            let description = match read_opt_text(es, "description") {
                Ok(x) => x,
                Err(_) => {
                    return Err(CorrelationError::InvalidRule("description".to_owned()));
                },
            };
            let level = match read_opt_text(es, "level") {
                Ok(x) => x,
                Err(_) => {
                    return Err(CorrelationError::InvalidRule("level".to_owned()));
                },
            };
            let tags = match read_tags(es) {
                Ok(x) => x,
                Err(_) => {
                    return Err(CorrelationError::InvalidRule("tags".to_owned()));
                },
            };
            let ck = "correlation".to_owned();
            let correlation = match lookup_map(es, &ck) {
                Some(c) => section_from_value(c)?,
                None => {
                    return Err(CorrelationError::InvalidRule(ck));
                },
            };
            Ok(SigmaCorrelationRule { title, id, name, status, description, level, tags, correlation })
        },
        _ => Err(CorrelationError::InvalidRule("the rule is not a mapping".to_owned())),
    }
}


/// The name under which a base rule is listed (see [`base_rule_key`]).
fn rule_key(r: &Rule) -> (res: String)
    ensures
        res@ == base_rule_key(*r),
{
    match &r.name {
        Some(n) => n.clone(),
        None => match &r.id {
            Some(i) => i.clone(),
            None => r.title.clone(),
        },
    }
}

/// Whether the document is a correlation rule (see [`is_correlation_doc`]).
fn is_correlation(d: &FieldValue) -> (res: bool)
    ensures
        res == is_correlation_doc(*d),
{
    match d {
        FieldValue::Mapping(es) => {
            let k = "correlation".to_owned();
            lookup_map(es, &k).is_some()
        },
        _ => false,
    }
}

/// What [`parse_rules_from_yaml`] returns: the correlation rules, and the base rules under
/// the names they are referred to by.
pub type ParseRulesResult = Result<(Vec<SigmaCorrelationRule>, Vec<(String, Rule)>), CorrelationError>;

/// Reads the documents of a YAML stream (separated by `---`) as correlation rules and base
/// rules (see [`docs_read`]).
pub fn parse_rules_from_yaml(yaml: &str) -> (res: ParseRulesResult)
    ensures
        match res {
            Ok((corrs, bases)) => yaml_documents(yaml@) matches Some(docs) && docs_read(corrs@, bases@, docs),
            Err(CorrelationError::Yaml(m)) => yaml_documents(yaml@) is None && m@ == yaml_stream_error_text(yaml@),
            Err(CorrelationError::InvalidRule(m)) => yaml_documents(yaml@) matches Some(docs) && !docs_ok(docs)
                && m@ == docs_error_part(docs),
            Err(CorrelationError::InvalidTimespan(_)) => false,
        },
{
    let docs = match parse_yaml_documents(yaml) {
        Ok(d) => d,
        Err(e) => {
            return Err(CorrelationError::Yaml(e));
        },
    };
    let ghost all = docs@;
    let mut corrs: Vec<SigmaCorrelationRule> = Vec::new();
    let mut bases: Vec<(String, Rule)> = Vec::new();
    assert(all.take(0) =~= Seq::<FieldValue>::empty());
    for d in it: docs.into_iter()
        invariant
            it.seq() == all,
            yaml_documents(yaml@) == Some(all),
            docs_read(corrs@, bases@, all.take(it.index() as int)),
            forall|j: int| 0 <= j < it.index() ==> doc_ok(#[trigger] all[j]),
    {
        let ghost k = it.index() as int;
        assert(all.take(k + 1).drop_last() =~= all.take(k));
        assert(all.take(k + 1).last() == d);
        let empty = match &d {
            FieldValue::Null => true,
            _ => false,
        };
        if empty {
        } else if is_correlation(&d) {
            match correlation_rule_from_value(&d) {
                Ok(c) => {
                    let ghost before = corrs@;
                    corrs.push(c);
                    assert(corrs@.drop_last() =~= before);
                },
                Err(e) => {
                    assert(!doc_ok(all[k]));
                    proof {
                        lemma_first_bad_doc(all, k);
                    }
                    return Err(e);
                },
            }
        } else {
            match rule_from_value(d) {
                Ok(r) => {
                    let key = rule_key(&r);
                    let ghost before = bases@;
                    bases.push((key, r));
                    assert(bases@.drop_last() =~= before);
                },
                Err(_) => {
                    assert(!doc_ok(all[k]));
                    proof {
                        lemma_first_bad_doc(all, k);
                    }
                    return Err(CorrelationError::InvalidRule("a base rule".to_owned()));
                },
            }
        }
    }
    assert(all.take(all.len() as int) =~= all);
    Ok((corrs, bases))
}

/// Reads a single correlation rule from a YAML document (see [`correlation_rule_reads`]).
pub fn parse_correlation_rule_from_yaml(yaml: &str) -> (res: Result<SigmaCorrelationRule, CorrelationError>)
    ensures
        match res {
            Ok(r) => yaml_document(yaml@) matches Some(t) && correlation_rule_reads(r, t),
            Err(CorrelationError::Yaml(m)) => yaml_document(yaml@) is None && m@ == yaml_error_text(yaml@),
            Err(CorrelationError::InvalidRule(m)) => yaml_document(yaml@) matches Some(t) && !correlation_rule_ok(t)
                && m@ == correlation_error_part(t),
            Err(CorrelationError::InvalidTimespan(_)) => false,
        },
{
    match parse_yaml(yaml) {
        Ok(tree) => correlation_rule_from_value(&tree),
        Err(e) => Err(CorrelationError::Yaml(e)),
    }
}

} // verus!
