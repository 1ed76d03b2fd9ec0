//! Sigma correlation rules: thresholds, time windows and their evaluation.
use vstd::prelude::*;
use crate::event::{Event, FieldValue, event_resolve};
use crate::engine::{alias_entry, alias_target, observations, observe_all, counting, counting_outcomes, temporal, temporal_outcomes, obs_views, outcome_views, string_views, Outcome};
use crate::rule::Rule;
pub use crate::correlation_reader::{parse_correlation_rule_from_yaml, parse_rules_from_yaml, ParseRulesResult};
use crate::text::{slice_prefix, chars_of, parse_decimal, all_digits, decimal_value, is_digit};

verus! {

/// The threshold of a correlation rule. Every bound that is present must hold.
pub struct CorrelationCondition {
    pub gte: Option<u64>,
    pub lte: Option<u64>,
    pub eq: Option<u64>,
    pub gt: Option<u64>,
    pub lt: Option<u64>,
    pub field: Option<String>,
}

/// `count` meets every bound of the condition that is present.
pub open spec fn condition_holds(c: CorrelationCondition, count: int) -> bool {
    &&& (c.gte matches Some(b) ==> count >= b)
    &&& (c.lte matches Some(b) ==> count <= b)
    &&& (c.eq matches Some(b) ==> count == b)
    &&& (c.gt matches Some(b) ==> count > b)
    &&& (c.lt matches Some(b) ==> count < b)
}

impl CorrelationCondition {
    /// Whether `count` satisfies every bound that is present.
    pub fn matches(&self, count: u64) -> (res: bool)
        ensures
            res == condition_holds(*self, count as int),
    {
        let gte_ok = match self.gte { Some(b) => count >= b, None => true };
        let lte_ok = match self.lte { Some(b) => count <= b, None => true };
        let eq_ok = match self.eq { Some(b) => count == b, None => true };
        let gt_ok = match self.gt { Some(b) => count > b, None => true };
        let lt_ok = match self.lt { Some(b) => count < b, None => true };
        gte_ok && lte_ok && eq_ok && gt_ok && lt_ok
    }
}

impl Default for CorrelationCondition {
    fn default() -> (res: Self)
        ensures
            res.gte is None && res.lte is None && res.eq is None && res.gt is None
                && res.lt is None && res.field is None,
    {
        CorrelationCondition { gte: None, lte: None, eq: None, gt: None, lt: None, field: None }
    }
}


/// Why a correlation rule could not be read or evaluated.
#[derive(Debug)]
pub enum CorrelationError {
    /// The timespan is not a number followed by one of the units `s`, `m`, `h` or `d`.
    InvalidTimespan(String),
    /// The YAML text could not be read.
    Yaml(String),
    /// A YAML document has the wrong shape for a rule; the text says which part.
    InvalidRule(String),
}

/// The number of seconds in one unit of a timespan, for the units `s`, `m`, `h` and `d`.
pub open spec fn unit_seconds(c: char) -> Option<int> {
    if c == 's' {
        Some(1)
    } else if c == 'm' {
        Some(60)
    } else if c == 'h' {
        Some(3600)
    } else if c == 'd' {
        Some(86400)
    } else {
        None
    }
}

/// The length in seconds that the timespan text `s` denotes: one or more decimal digits
/// followed by a single unit character.
pub open spec fn timespan_seconds(s: Seq<char>) -> Option<int> {
    if s.len() >= 2 && all_digits(s.drop_last()) && unit_seconds(s.last()) is Some {
        Some(decimal_value(s.drop_last()) * unit_seconds(s.last())->0)
    } else {
        None
    }
}

impl CorrelationEngine {
    /// Reads a timespan such as `30s`, `5m`, `1h` or `2d` and returns its length in seconds.
    pub fn parse_timespan(timespan: &str) -> (res: Result<u64, CorrelationError>)
        ensures
            match res {
                Ok(secs) => timespan_seconds(timespan@) == Some(secs as int),
                Err(e) => (timespan_seconds(timespan@) is None
                    || timespan_seconds(timespan@)->0 > u64::MAX) && e is InvalidTimespan,
            },
    {
        let cs = chars_of(timespan);
        let n = cs.len();
        if n < 2 {
            return Err(CorrelationError::InvalidTimespan(timespan.to_owned()));
        }
        let unit = cs[n - 1];
        let mult: u64 = if unit == 's' {
            1
        } else if unit == 'm' {
            60
        } else if unit == 'h' {
            3600
        } else if unit == 'd' {
            86400
        } else {
            return Err(CorrelationError::InvalidTimespan(timespan.to_owned()));
        };
        let digits = slice_prefix(cs.as_slice(), n - 1);
        assert(digits@ =~= timespan@.drop_last());
        let mut i: usize = 0;
        while i < digits.len()
            invariant
                0 <= i <= digits.len(),
                digits@ == timespan@.drop_last(),
                timespan@.len() >= 2,
                forall|j: int| 0 <= j < i ==> is_digit(#[trigger] digits@[j]),
            decreases digits.len() - i,
        {
            let c = digits[i];
            if !('0' <= c && c <= '9') {
                assert(!is_digit(timespan@.drop_last()[i as int]));
                return Err(CorrelationError::InvalidTimespan(timespan.to_owned()));
            }
            i = i + 1;
        }
        match parse_decimal(digits) {
            Some(v) => match v.checked_mul(mult) {
                Some(secs) => Ok(secs),
                None => Err(CorrelationError::InvalidTimespan(timespan.to_owned())),
            },
            None => {
                assert(decimal_value(digits@) * mult >= decimal_value(digits@)) by (nonlinear_arith)
                    requires decimal_value(digits@) >= 0, mult >= 1;
                Err(CorrelationError::InvalidTimespan(timespan.to_owned()))
            },
        }
    }
}

/// The kinds of correlation.
#[derive(PartialEq, Eq, Structural, Clone, Copy, Debug)]
pub enum CorrelationType {
    /// Counts the events of a group in a time window (`event_count`).
    EventCount,
    /// Counts the distinct values of a field among the events of a group in a time window
    /// (`value_count`).
    ValueCount,
    /// Counts how many of the referenced rules fire for a group in a time window
    /// (`temporal`).
    Temporal,
    /// Like `temporal`, but counts only the referenced rules that fire one after another in
    /// the order they are listed (`temporal_ordered`).
    TemporalOrdered,
}

/// Field aliases: under an alias name, the field that carries it in each referenced rule.
pub struct FieldAliases {
    pub aliases: Vec<(String, Vec<(String, String)>)>,
}

impl Default for CorrelationType {
    /// `event_count`.
    fn default() -> (res: Self)
        ensures
            res == CorrelationType::EventCount,
    {
        CorrelationType::EventCount
    }
}

impl FieldAliases {
    /// The field that carries the alias `alias` in events of the rule `rule`, where the
    /// table names one (see [`crate::engine::alias_entry`] and [`crate::engine::alias_target`]).
    #[verifier::loop_isolation(false)]
    pub fn field_for(&self, alias: &str, rule: &str) -> (res: Option<&String>)
        ensures
            match alias_entry(self.aliases@, alias@) {
                Some(m) => match alias_target(m, rule@) {
                    Some(f) => res matches Some(x) && x@ == f,
                    None => res is None,
                },
                None => res is None,
            },
    {
        let alias_s = alias.to_owned();
        let rule_s = rule.to_owned();
        let a = &self.aliases;
        let mut i: usize = 0;
        assert(a@.skip(0) =~= a@);
        while i < a.len()
            invariant
                0 <= i <= a@.len(),
                alias_entry(a@, alias@) == alias_entry(a@.skip(i as int), alias@),
            decreases a@.len() - i,
        {
            assert(a@.skip(i as int)[0] == a@[i as int]);
            assert(a@.skip(i as int).skip(1) =~= a@.skip(i + 1));
            if a[i].0 == alias_s {
                let m = &a[i].1;
                assert(alias_entry(a@, alias@) == Some(m@));
                let mut j: usize = 0;
                assert(m@.skip(0) =~= m@);
                while j < m.len()
                    invariant
                        0 <= j <= m@.len(),
                        alias_target(m@, rule@) == alias_target(m@.skip(j as int), rule@),
                    decreases m@.len() - j,
                {
                    assert(m@.skip(j as int)[0] == m@[j as int]);
                    assert(m@.skip(j as int).skip(1) =~= m@.skip(j + 1));
                    if m[j].0 == rule_s {
                        return Some(&m[j].1);
                    }
                    j = j + 1;
                }
                return None;
            }
            i = i + 1;
        }
        None
    }
}

/// The `correlation` section of a correlation rule.
pub struct CorrelationSection {
    pub correlation_type: CorrelationType,
    /// The names of the rules whose matches are correlated.
    pub rules: Vec<String>,
    /// The fields whose values group the events.
    pub group_by: Option<Vec<String>>,
    /// The length of the time window, such as `5m`.
    pub timespan: String,
    pub condition: Option<CorrelationCondition>,
    pub generate: Option<bool>,
    pub aliases: Option<FieldAliases>,
}

/// A Sigma correlation rule.
pub struct SigmaCorrelationRule {
    pub title: String,
    pub id: Option<String>,
    pub name: Option<String>,
    pub status: Option<String>,
    pub description: Option<String>,
    pub level: Option<String>,
    pub tags: Vec<String>,
    pub correlation: CorrelationSection,
}

impl Default for CorrelationSection {
    /// An `event_count` section with no rules, no grouping, an empty timespan and nothing else.
    fn default() -> (res: Self)
        ensures
            res.correlation_type == CorrelationType::EventCount,
            res.rules@.len() == 0,
            res.group_by is None,
            res.timespan@.len() == 0,
            res.condition is None,
            res.generate is None,
            res.aliases is None,
    {
        CorrelationSection {
            correlation_type: CorrelationType::EventCount,
            rules: Vec::new(),
            group_by: None,
            timespan: String::new(),
            condition: None,
            generate: None,
            aliases: None,
        }
    }
}

impl Default for SigmaCorrelationRule {
    /// A rule with an empty title, no other metadata and the default section.
    fn default() -> (res: Self)
        ensures
            res.title@.len() == 0,
            res.id is None && res.name is None && res.status is None,
            res.description is None && res.level is None,
            res.tags@.len() == 0,
            res.correlation.correlation_type == CorrelationType::EventCount,
            res.correlation.rules@.len() == 0,
            res.correlation.group_by is None,
            res.correlation.timespan@.len() == 0,
            res.correlation.condition is None,
            res.correlation.generate is None,
            res.correlation.aliases is None,
    {
        SigmaCorrelationRule {
            title: String::new(),
            id: None,
            name: None,
            status: None,
            description: None,
            level: None,
            tags: Vec::new(),
            correlation: CorrelationSection::default(),
        }
    }
}

/// An event that a base rule matched, with the time it happened (nanoseconds since the
/// epoch).
pub struct TimestampedEvent<'a> {
    pub event: Event,
    pub timestamp: i128,
    pub rule: &'a Rule,
}

/// The group that a result is about: the values of the `group-by` fields.
pub struct AggregationKey {
    pub group_values: Vec<String>,
}

/// The outcome of a correlation rule for one group (and, for the counting kinds, one time
/// window).
pub struct CorrelationResult {
    /// The title of the correlation rule.
    pub rule_title: String,
    /// Whether the count meets the rule's condition.
    pub matched: bool,
    pub count: u64,
    pub aggregation_key: AggregationKey,
}

/// Evaluates correlation rules over streams of timestamped events.
pub struct CorrelationEngine {
    pub rules: Vec<SigmaCorrelationRule>,
}


/// A result of the engine, in abstract form.
pub struct ResultSpec {
    pub title: Seq<char>,
    pub key: Seq<Seq<char>>,
    pub count: int,
    pub matched: bool,
}

/// The abstract form of a result.
pub open spec fn result_view(r: CorrelationResult) -> ResultSpec {
    ResultSpec {
        title: r.rule_title@,
        key: string_views(r.aggregation_key.group_values@),
        count: r.count as int,
        matched: r.matched,
    }
}

/// The abstract forms of a list of results.
pub open spec fn result_views(v: Seq<CorrelationResult>) -> Seq<ResultSpec> {
    Seq::new(v.len(), |i: int| result_view(v[i]))
}

/// The correlation type counts within fixed time windows (`event_count`, `value_count`).
pub open spec fn is_counting(t: CorrelationType) -> bool {
    t == CorrelationType::EventCount || t == CorrelationType::ValueCount
}

/// The number of nanoseconds in a second.
pub open spec fn nanos_per_second() -> int {
    1_000_000_000
}

/// The section's timespan parses to a positive length whose nanoseconds fit in a `u64`.
pub open spec fn timespan_ok(sec: CorrelationSection) -> bool {
    &&& timespan_seconds(sec.timespan@) matches Some(secs)
    &&& 0 < secs
    &&& secs * nanos_per_second() <= u64::MAX
}

/// Whether the engine can evaluate the section: its timespan is valid; the counting types
/// have a condition; `value_count` names the counted field.
pub open spec fn section_ok(sec: CorrelationSection) -> bool {
    &&& timespan_ok(sec)
    &&& is_counting(sec.correlation_type) ==> sec.condition is Some
    &&& sec.correlation_type == CorrelationType::ValueCount ==> (sec.condition matches Some(c) && c.field is Some)
}

/// The length of the section's time window, in nanoseconds.
pub open spec fn section_span(sec: CorrelationSection) -> int {
    match timespan_seconds(sec.timespan@) {
        Some(secs) => secs * nanos_per_second(),
        None => 0,
    }
}

/// The groups (and, for the counting types, time windows) of the section, with their counts.
pub open spec fn section_outcomes(sec: CorrelationSection, evs: Seq<TimestampedEvent>) -> Seq<Outcome> {
    let obs = observations(sec, evs);
    let span = section_span(sec);
    match sec.correlation_type {
        CorrelationType::EventCount => counting_outcomes(obs, span, false, obs.len() as int),
        CorrelationType::ValueCount => counting_outcomes(obs, span, true, obs.len() as int),
        CorrelationType::Temporal => temporal_outcomes(obs, span, false, sec.rules@.len() as int, obs.len() as int),
        CorrelationType::TemporalOrdered => temporal_outcomes(obs, span, true, sec.rules@.len() as int, obs.len() as int),
    }
}

/// A count fires the section: it meets the condition, or, without one, every referenced
/// rule has fired.
pub open spec fn outcome_matched(sec: CorrelationSection, count: int) -> bool {
    match sec.condition {
        Some(c) => condition_holds(c, count),
        None => count >= sec.rules@.len(),
    }
}

/// The results of one correlation rule.
pub open spec fn rule_results(r: SigmaCorrelationRule, evs: Seq<TimestampedEvent>) -> Seq<ResultSpec> {
    let outs = section_outcomes(r.correlation, evs);
    Seq::new(outs.len(), |i: int| ResultSpec {
        title: r.title@,
        key: outs[i].key,
        count: outs[i].count as int,
        matched: outcome_matched(r.correlation, outs[i].count as int),
    })
}

/// The results of all the rules, rule by rule in order.
pub open spec fn engine_results(rules: Seq<SigmaCorrelationRule>, evs: Seq<TimestampedEvent>) -> Seq<ResultSpec>
    decreases rules.len(),
{
    if rules.len() == 0 {
        Seq::empty()
    } else {
        engine_results(rules.drop_last(), evs) + rule_results(rules.last(), evs)
    }
}

/// Rule `k` is the first of the engine's rules that cannot be evaluated.
pub open spec fn first_bad_rule(rules: Seq<SigmaCorrelationRule>, k: int) -> bool {
    &&& 0 <= k < rules.len()
    &&& !section_ok(rules[k].correlation)
    &&& forall|j: int| 0 <= j < k ==> section_ok(#[trigger] rules[j].correlation)
}

/// Every rule of the engine can be evaluated.
pub open spec fn engine_ok(rules: Seq<SigmaCorrelationRule>) -> bool {
    forall|i: int| 0 <= i < rules.len() ==> section_ok(#[trigger] rules[i].correlation)
}

impl CorrelationEngine {
    /// An engine with no rules.
    pub fn new() -> (res: CorrelationEngine)
        ensures
            res.rules@.len() == 0,
    {
        CorrelationEngine { rules: Vec::new() }
    }

    /// Adds a correlation rule; it is evaluated after those already there.
    pub fn add_correlation_rule(&mut self, rule: SigmaCorrelationRule)
        ensures
            final(self).rules@ == old(self).rules@.push(rule),
    {
        self.rules.push(rule);
    }

    /// The results of one correlation rule (see [`rule_results`]).
    fn evaluate_rule(rule: &SigmaCorrelationRule, events: &[TimestampedEvent]) -> (res: Result<Vec<CorrelationResult>, CorrelationError>)
        ensures
            match res {
                Ok(rs) => section_ok(rule.correlation) && result_views(rs@) == rule_results(*rule, events@),
                Err(e) => {
                    &&& !section_ok(rule.correlation)
                    &&& (e is InvalidTimespan <==> !timespan_ok(rule.correlation))
                    &&& !(e is Yaml)
                },
            },
    {
        let sec = &rule.correlation;
        let secs = match Self::parse_timespan(sec.timespan.as_str()) {
            Ok(s) => s,
            Err(e) => {
                return Err(e);
            },
        };
        if secs == 0 {
            return Err(CorrelationError::InvalidTimespan(sec.timespan.clone()));
        }
        let span = match secs.checked_mul(1_000_000_000) {
            Some(ns) => ns,
            None => {
                return Err(CorrelationError::InvalidTimespan(sec.timespan.clone()));
            },
        };
        let counting_type = sec.correlation_type == CorrelationType::EventCount
            || sec.correlation_type == CorrelationType::ValueCount;
        if counting_type && sec.condition.is_none() {
            return Err(CorrelationError::InvalidRule("condition".to_owned()));
        }
        if sec.correlation_type == CorrelationType::ValueCount {
            match &sec.condition {
                Some(c) => {
                    if c.field.is_none() {
                        return Err(CorrelationError::InvalidRule("condition.field".to_owned()));
                    }
                },
                None => {},
            }
        }
        let obs = observe_all(sec, events);
        let outs = match sec.correlation_type {
            CorrelationType::EventCount => counting(&obs, span, false),
            CorrelationType::ValueCount => counting(&obs, span, true),
            CorrelationType::Temporal => temporal(&obs, span, false, sec.rules.len()),
            CorrelationType::TemporalOrdered => temporal(&obs, span, true, sec.rules.len()),
        };
        let ghost outs0 = outs@;
        assert(outcome_views(outs0) == section_outcomes(*sec, events@));
        let mut res: Vec<CorrelationResult> = Vec::new();
        for o in it: outs.into_iter()
            invariant
                it.seq() == outs0,
                outcome_views(outs0) == section_outcomes(*sec, events@),
                *sec == rule.correlation,
                res@.len() == it.index(),
                forall|i: int| 0 <= i < it.index() ==> #[trigger] result_view(res@[i]) == rule_results(*rule, events@)[i],
        {
            let ghost idx = it.index();
            assert(outcome_views(outs0)[idx] == crate::engine::outcome_view(outs0[idx]));
            let (key, count) = o;
            let matched = match &sec.condition {
                Some(c) => c.matches(count),
                None => count >= sec.rules.len() as u64,
            };
            res.push(CorrelationResult {
                rule_title: rule.title.clone(),
                matched,
                count,
                aggregation_key: AggregationKey { group_values: key },
            });
            assert(result_view(res@[idx]) == rule_results(*rule, events@)[idx]);
        }
        assert(result_views(res@) =~= rule_results(*rule, events@));
        Ok(res)
    }

    /// Evaluates every correlation rule over the events and returns the results, rule by rule
    /// in the order the rules were added (see [`engine_results`]); fails when a rule cannot be
    /// evaluated.
    pub fn process_events(&self, events: &[TimestampedEvent]) -> (res: Result<Vec<CorrelationResult>, CorrelationError>)
        ensures
            match res {
                Ok(rs) => engine_ok(self.rules@) && result_views(rs@) == engine_results(self.rules@, events@),
                Err(e) => exists|k: int| {
                    &&& first_bad_rule(self.rules@, k)
                    &&& (e is InvalidTimespan <==> !timespan_ok(#[trigger] self.rules@[k].correlation))
                    &&& !(e is Yaml)
                },
            },
    {
        let mut out: Vec<CorrelationResult> = Vec::new();
        let mut i: usize = 0;
        assert(result_views(out@) =~= engine_results(self.rules@.take(0), events@));
        while i < self.rules.len()
            invariant
                0 <= i <= self.rules@.len(),
                forall|j: int| 0 <= j < i ==> section_ok(#[trigger] self.rules@[j].correlation),
                result_views(out@) == engine_results(self.rules@.take(i as int), events@),
            decreases self.rules@.len() - i,
        {
            let mut rs = match Self::evaluate_rule(&self.rules[i], events) {
                Ok(rs) => rs,
                Err(e) => {
                    assert(first_bad_rule(self.rules@, i as int));
                    return Err(e);
                },
            };
            let ghost before = out@;
            let ghost added = rs@;
            out.append(&mut rs);
            assert(self.rules@.take(i + 1).drop_last() =~= self.rules@.take(i as int));
            assert(self.rules@.take(i + 1).last() == self.rules@[i as int]);
            assert(result_views(out@) =~= result_views(before) + result_views(added));
            i = i + 1;
        }
        assert(self.rules@.take(self.rules@.len() as int) =~= self.rules@);
        Ok(out)
    }
}

} // verus!
