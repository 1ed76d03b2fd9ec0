//! A library for parsing Sigma rules and checking them against log events.
#![allow(unused_imports)]

use vstd::prelude::*;

pub mod backends;
pub mod condition;
pub mod correlation;
pub mod correlation_reader;
pub mod detection;
pub mod encoding;
pub mod engine;
pub mod event;
pub mod laws;
pub mod outside_types;
pub mod rule;
pub mod text;
pub mod wildcard;

pub use crate::correlation::{CorrelationEngine, SigmaCorrelationRule, TimestampedEvent};
pub use crate::correlation_reader::{parse_rules_from_yaml, ParseRulesResult};
pub use crate::event::{Event, FieldValue};
pub use crate::rule::Rule;

use crate::backends::{
    json_document, json_error_text, parse_json, parse_yaml, yaml_document, yaml_documents,
    yaml_error_text, yaml_stream_error_text,
};
use crate::correlation::CorrelationError;
use crate::correlation_reader::{docs_error_part, docs_ok, docs_read};
use crate::event::{
    event_from_value, event_reads, event_tree_ok, events_from_value, events_read, events_tree_ok,
    EventError,
};
use crate::rule::{fault_of, field_text_is, rule_field_text, rule_fault, rule_from_value, rule_holds, rule_ok, rule_reads, RuleError};

verus! {

/// Parses a rule from a YAML string: the YAML parser reads the text into a tree, and the
/// tree is read as a rule (see [`rule::rule_reads`]).
pub fn rule_from_yaml(yaml: &str) -> (res: Result<Rule, RuleError>)
    ensures
        match res {
            Ok(r) => yaml_document(yaml@) matches Some(t) && rule_reads(r, t),
            Err(RuleError::Yaml(m)) => yaml_document(yaml@) is None && m@ == yaml_error_text(yaml@),
            Err(e) => yaml_document(yaml@) matches Some(t) && !rule_ok(t) && fault_of(e) == rule_fault(t)
                && field_text_is(e, rule_field_text(t)),
        },
{
    match parse_yaml(yaml) {
        Ok(tree) => rule_from_value(tree),
        Err(e) => Err(RuleError::Yaml(e)),
    }
}

/// Parses correlation rules and the base rules beside them from a YAML stream whose
/// documents are separated by `---` (see [`correlation_reader::docs_read`]).
pub fn correlation_rule_from_yaml(yaml: &str) -> (res: ParseRulesResult)
    ensures
        match res {
            Ok((corrs, bases)) => yaml_documents(yaml@) matches Some(docs) && docs_read(corrs@, bases@, docs),
            Err(CorrelationError::Yaml(m)) => yaml_documents(yaml@) is None && m@ == yaml_stream_error_text(yaml@),
            Err(CorrelationError::InvalidRule(m)) => yaml_documents(yaml@) matches Some(docs) && !docs_ok(docs)
                && m@ == docs_error_part(docs),
            Err(CorrelationError::InvalidTimespan(_)) => false,
        },
{
    parse_rules_from_yaml(yaml)
}

/// Parses an event from a JSON object.
pub fn event_from_json(json: &str) -> (res: Result<Event, EventError>)
    ensures
        match res {
            Ok(e) => json_document(json@) matches Some(t) && event_reads(e, t),
            Err(EventError::Json(m)) => json_document(json@) is None && m@ == json_error_text(json@),
            Err(EventError::NotAnObject) => json_document(json@) matches Some(t) && !event_tree_ok(t),
            Err(EventError::NotAList) => false,
        },
{
    match parse_json(json) {
        Ok(tree) => event_from_value(tree),
        Err(e) => Err(EventError::Json(e)),
    }
}

/// Parses a list of events from a JSON array of objects.
pub fn events_from_json(json: &str) -> (res: Result<Vec<Event>, EventError>)
    ensures
        match res {
            Ok(es) => json_document(json@) matches Some(t) && events_read(es@, t),
            Err(EventError::Json(m)) => json_document(json@) is None && m@ == json_error_text(json@),
            Err(EventError::NotAList) => json_document(json@) matches Some(t) && !(t is Sequence),
            Err(EventError::NotAnObject) => json_document(json@) matches Some(t) && t is Sequence
                && !events_tree_ok(t),
        },
{
    match parse_json(json) {
        Ok(tree) => events_from_value(tree),
        Err(e) => Err(EventError::Json(e)),
    }
}

/// Checks whether a rule matches an event.
pub fn check_rule(rule: &Rule, event: &Event) -> (res: bool)
    ensures
        res == rule_holds(*rule, event.fields@),
{
    rule.is_match(event)
}

} // verus!
