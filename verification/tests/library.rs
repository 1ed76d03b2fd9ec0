use sigma_rust::correlation::{
    parse_correlation_rule_from_yaml, parse_rules_from_yaml, CorrelationCondition, CorrelationEngine,
    CorrelationError, CorrelationSection, CorrelationType, SigmaCorrelationRule, TimestampedEvent,
};
use sigma_rust::event::EventError;
use sigma_rust::rule::RuleError;
use sigma_rust::{
    check_rule, correlation_rule_from_yaml, event_from_json, events_from_json, rule_from_yaml, Event,
    FieldValue, Rule,
};

fn rule_with(selection: &str, condition: &str) -> Rule {
    rule_from_yaml(&format!(
        "title: T\nlogsource:\n  product: test\ndetection:\n{}\n  condition: {}\n",
        selection, condition
    ))
    .unwrap()
}

fn one_field(key: &str, value: &str) -> Rule {
    rule_with(&format!("  selection:\n    {}: {}", key, value), "selection")
}

fn ev(json: &str) -> Event {
    event_from_json(json).unwrap()
}

#[test]
fn test_readme_example() {
    let rule_yaml = r#"
    title: A test rule
    logsource:
        category: test
    detection:
        selection_1:
            Event.ID: 42
            TargetFilename|contains: ':\temp\'
            TargetFilename|endswith:
                - '.au3'
                - '\autoit3.exe'
        selection_2:
            Image|contains: ':\temp\'
            Image|endswith:
                - '.au3'
                - '\autoit3.exe'
        condition: 1 of selection_*
    "#;
    let rule = rule_from_yaml(rule_yaml).unwrap();
    let event = ev(r#"{"TargetFilename": "C:\\temp\\file.au3", "Image": "C:\\temp\\autoit4.exe", "Event": {"ID": 42}}"#);
    assert!(rule.is_match(&event));
    assert!(check_rule(&rule, &event));
}

#[test]
fn test_dotted_field_takes_precedence() {
    let event = ev(r#"{"Event.ID": 42, "Event": {"ID": 43}}"#);
    assert!(matches!(event.resolve("Event.ID"), Some(FieldValue::Int(42))));
    assert!(one_field("Event.ID", "42").is_match(&event));
    assert!(!one_field("Event.ID", "43").is_match(&event));

    let nested = ev(r#"{"Event": {"ID": 43, "Inner": {"Deep": "x"}}}"#);
    assert!(matches!(nested.resolve("Event.ID"), Some(FieldValue::Int(43))));
    assert!(one_field("Event.Inner.Deep", "x").is_match(&nested));
    assert!(nested.resolve("Event.Missing").is_none());
}

#[test]
fn test_strong_type_checking() {
    let rule = one_field("myname", "42");
    assert!(!rule.is_match(&ev(r#"{"myname": "42"}"#)));
    assert!(rule.is_match(&ev(r#"{"myname": 42}"#)));

    let either = rule_with("  selection_1:\n    field: 42\n  selection_2:\n    field: \"42\"", "1 of them");
    assert!(either.is_match(&ev(r#"{"field": "42"}"#)));
    assert!(either.is_match(&ev(r#"{"field": 42}"#)));
    assert!(!either.is_match(&ev(r#"{"field": 43}"#)));
}

#[test]
fn test_wildcards() {
    let rule = one_field("Field", "'ab*c?'");
    assert!(rule.is_match(&ev(r#"{"Field": "abXYZcd"}"#)));
    assert!(rule.is_match(&ev(r#"{"Field": "abcd"}"#)));
    assert!(!rule.is_match(&ev(r#"{"Field": "abc"}"#)));
    assert!(!rule.is_match(&ev(r#"{"Field": "xabcd"}"#)));

    let escaped = one_field("Field", r"'a\*b'");
    assert!(escaped.is_match(&ev(r#"{"Field": "a*b"}"#)));
    assert!(!escaped.is_match(&ev(r#"{"Field": "axb"}"#)));
}

#[test]
fn test_string_modifiers_ignore_case() {
    assert!(one_field("Field|contains", "EVIL").is_match(&ev(r#"{"Field": "my evil file"}"#)));
    assert!(one_field("Field|startswith", "'c:'").is_match(&ev(r#"{"Field": "C:\\x"}"#)));
    assert!(!one_field("Field|startswith", "x").is_match(&ev(r#"{"Field": "C:\\x"}"#)));
    assert!(one_field("Field|endswith", ".EXE").is_match(&ev(r#"{"Field": "a.exe"}"#)));
    assert!(one_field("Field", "ABC").is_match(&ev(r#"{"Field": "abc"}"#)));
    // Lowercasing is Unicode's, not only ASCII's.
    assert!(one_field("Field|contains", "ÉVIL").is_match(&ev(r#"{"Field": "très évil"}"#)));
    // Modifier names themselves are read regardless of case.
    assert!(one_field("Field|CONTAINS", "evil").is_match(&ev(r#"{"Field": "an evil one"}"#)));
}

#[test]
fn test_numeric_comparisons() {
    let e = ev(r#"{"n": 10}"#);
    assert!(one_field("n|gt", "9").is_match(&e));
    assert!(!one_field("n|gt", "10").is_match(&e));
    assert!(one_field("n|gte", "10").is_match(&e));
    assert!(one_field("n|lt", "11").is_match(&e));
    assert!(!one_field("n|lt", "10").is_match(&e));
    assert!(one_field("n|lte", "10").is_match(&e));
    assert!(!one_field("n|gt", "1").is_match(&ev(r#"{"n": "10"}"#)));
}

#[test]
fn test_windash_and_cidr() {
    let rule = one_field("CMD|windash", "-force");
    assert!(rule.is_match(&ev(r#"{"CMD": "/force"}"#)));
    assert!(rule.is_match(&ev("{\"CMD\": \"\u{2013}force\"}")));
    assert!(!rule.is_match(&ev(r#"{"CMD": "+force"}"#)));

    let net = one_field("Ip|cidr", "10.0.0.0/8");
    assert!(net.is_match(&ev(r#"{"Ip": "10.1.2.3"}"#)));
    assert!(!net.is_match(&ev(r#"{"Ip": "11.0.0.1"}"#)));
    assert!(!net.is_match(&ev(r#"{"Ip": "not an address"}"#)));
}

#[test]
fn test_fieldref() {
    let rule = one_field("A|fieldref", "B");
    assert!(rule.is_match(&ev(r#"{"A": "x", "B": "x"}"#)));
    assert!(!rule.is_match(&ev(r#"{"A": "x", "B": "y"}"#)));
    assert!(!rule.is_match(&ev(r#"{"A": "x"}"#)));
}

#[test]
fn test_neq_laws_on_examples() {
    // Repeating `neq` is the same as writing it once.
    let once = one_field("Channel|neq", "Security");
    let twice = one_field("Channel|neq|neq", "Security");
    for json in [r#"{"Channel": "Security"}"#, r#"{"Channel": "System"}"#, r#"{"Other": 1}"#] {
        assert_eq!(once.is_match(&ev(json)), twice.is_match(&ev(json)));
    }
    // A missing field differs from every value.
    assert!(one_field("Channel|contains|neq", "x").is_match(&ev(r#"{"Other": 1}"#)));
    // `exists` cannot be negated.
    assert!(matches!(
        rule_from_yaml("title: T\ndetection:\n  selection:\n    F|exists|neq: true\n  condition: selection\n"),
        Err(RuleError::InvalidField(_))
    ));
}

#[test]
fn test_conditions() {
    let yaml = "  sel_a:\n    a: 1\n  sel_b:\n    b: 1\n  other:\n    c: 1";
    let e_ab = ev(r#"{"a": 1, "b": 1}"#);
    let e_a = ev(r#"{"a": 1}"#);
    let e_c = ev(r#"{"c": 1}"#);
    let cases = [
        ("sel_a and sel_b", [true, false, false]),
        ("sel_a or other", [true, true, true]),
        ("not sel_a", [false, false, true]),
        ("all of sel_*", [true, false, false]),
        ("1 of sel_*", [true, true, false]),
        ("all of them", [false, false, false]),
        ("1 of them", [true, true, true]),
        ("(sel_a or sel_b) and not other", [true, true, false]),
        ("sel_a and (sel_b or other)", [true, false, false]),
    ];
    for (condition, expected) in cases {
        let rule = rule_with(yaml, condition);
        assert_eq!(rule.is_match(&e_ab), expected[0], "{condition}");
        assert_eq!(rule.is_match(&e_a), expected[1], "{condition}");
        assert_eq!(rule.is_match(&e_c), expected[2], "{condition}");
    }
}

#[test]
fn test_rule_errors() {
    assert!(matches!(rule_from_yaml("title: [unclosed"), Err(RuleError::Yaml(_))));
    assert!(matches!(
        rule_from_yaml("detection:\n  selection:\n    a: 1\n  condition: selection\n"),
        Err(RuleError::InvalidRule(_))
    ));
    assert!(matches!(
        rule_from_yaml("title: T\ndetection:\n  selection:\n    a|nosuchmodifier: 1\n  condition: selection\n"),
        Err(RuleError::InvalidField(_))
    ));
    assert!(matches!(
        rule_from_yaml("title: T\ndetection:\n  selection:\n    a|re: '('\n  condition: selection\n"),
        Err(RuleError::InvalidField(_))
    ));
    assert!(matches!(
        rule_from_yaml("title: T\ndetection:\n  selection:\n    a|cidr: 'not a network'\n  condition: selection\n"),
        Err(RuleError::InvalidField(_))
    ));
    assert!(matches!(
        rule_from_yaml("title: T\ndetection:\n  selection:\n  condition: selection\n"),
        Err(RuleError::InvalidSelection(_))
    ));
    assert!(matches!(
        rule_from_yaml("title: T\ndetection:\n  selection:\n    a: 1\n  condition: selection and\n"),
        Err(RuleError::InvalidCondition(_))
    ));
    assert!(matches!(
        rule_from_yaml("title: T\ndetection:\n  selection:\n    a: 1\n  condition: missing\n"),
        Err(RuleError::InvalidCondition(_))
    ));
}

#[test]
fn test_event_parsing() {
    let event = event_from_json(r#"{"a": 1, "b": "x", "c": null, "d": true, "e": 1.5}"#).unwrap();
    assert!(matches!(event.get("a"), Some(FieldValue::Int(1))));
    assert!(matches!(event.get("b"), Some(FieldValue::Text(s)) if s == "x"));
    assert!(matches!(event.get("c"), Some(FieldValue::Null)));
    assert!(matches!(event.get("d"), Some(FieldValue::Bool(true))));
    assert!(matches!(event.get("e"), Some(FieldValue::Number(s)) if s == "1.5"));
    assert!(event.get("f").is_none());

    assert!(matches!(event_from_json("{"), Err(EventError::Json(_))));
    assert!(matches!(event_from_json("[1]"), Err(EventError::NotAnObject)));

    let events = events_from_json(r#"[{"a": 1}, {"b": 2}]"#).unwrap();
    assert_eq!(events.len(), 2);
    assert!(matches!(events[1].get("b"), Some(FieldValue::Int(2))));
    assert!(matches!(events_from_json(r#"{"a": 1}"#), Err(EventError::NotAList)));
    assert!(matches!(events_from_json("[1]"), Err(EventError::NotAnObject)));
}

#[test]
fn test_event_insert_overwrites() {
    let mut event = Event::new();
    event.insert("a", FieldValue::Int(1));
    event.insert("b", FieldValue::Int(2));
    event.insert("a", FieldValue::Int(3));
    assert!(matches!(event.get("a"), Some(FieldValue::Int(3))));
    assert!(matches!(event.get("b"), Some(FieldValue::Int(2))));
    assert_eq!(event.fields.len(), 2);
}

#[test]
fn test_parse_rules_documents() {
    let yaml = "title: By id\nid: abc-1\ndetection:\n  s:\n    a: 1\n  condition: s\n---\n---\ntitle: By title\ndetection:\n  s:\n    a: 1\n  condition: s\n";
    let (corrs, bases) = parse_rules_from_yaml(yaml).unwrap();
    assert!(corrs.is_empty());
    assert_eq!(bases.len(), 2);
    assert_eq!(bases[0].0, "abc-1");
    assert_eq!(bases[1].0, "By title");

    let (corrs, bases) = correlation_rule_from_yaml(
        "title: C\ncorrelation:\n  type: temporal\n  rules: [a, b]\n  timespan: 1m\n",
    )
    .unwrap();
    assert_eq!(corrs.len(), 1);
    assert!(bases.is_empty());
    assert!(corrs[0].correlation.condition.is_none());

    assert!(matches!(parse_rules_from_yaml("a: [unclosed"), Err(CorrelationError::Yaml(_))));
    assert!(matches!(
        parse_rules_from_yaml("title: C\ncorrelation:\n  type: bogus\n  rules: a\n  timespan: 1m\n"),
        Err(CorrelationError::InvalidRule(_))
    ));
    assert!(matches!(parse_rules_from_yaml("no_title: 1\n"), Err(CorrelationError::InvalidRule(_))));
}

#[test]
fn test_correlation_reader_errors_and_legacy_aliases() {
    assert!(matches!(parse_correlation_rule_from_yaml("title: ["), Err(CorrelationError::Yaml(_))));
    assert!(matches!(
        parse_correlation_rule_from_yaml("title: C\ncorrelation:\n  type: event_count\n  rules: a\n"),
        Err(CorrelationError::InvalidRule(_))
    ));
    assert!(matches!(
        parse_correlation_rule_from_yaml(
            "title: C\ncorrelation:\n  type: event_count\n  rules: a\n  timespan: 1m\n  condition:\n    gte: -1\n"
        ),
        Err(CorrelationError::InvalidRule(_))
    ));
    let legacy = parse_correlation_rule_from_yaml(
        "title: C\ncorrelation:\n  type: event_count\n  rules: a\n  timespan: 1m\n  condition:\n    gte: 1\n  aliases:\n    aliases:\n      user:\n        a: TargetUserName\n",
    )
    .unwrap();
    let aliases = legacy.correlation.aliases.as_ref().unwrap();
    assert_eq!(aliases.field_for("user", "a"), Some(&"TargetUserName".to_string()));
    assert_eq!(aliases.field_for("user", "b"), None);
    assert_eq!(aliases.field_for("host", "a"), None);
}

fn section(kind: CorrelationType, rules: &[&str], timespan: &str, condition: Option<CorrelationCondition>) -> SigmaCorrelationRule {
    SigmaCorrelationRule {
        title: "R".to_string(),
        correlation: CorrelationSection {
            correlation_type: kind,
            rules: rules.iter().map(|r| r.to_string()).collect(),
            group_by: Some(vec!["user".to_string()]),
            timespan: timespan.to_string(),
            condition,
            generate: None,
            aliases: None,
        },
        ..Default::default()
    }
}

fn base(title: &str) -> Rule {
    let mut rule = one_field("field", "value");
    rule.title = title.to_string();
    rule
}

#[test]
fn test_engine_errors() {
    let rule = base("a");
    let events = vec![TimestampedEvent { event: ev(r#"{"user": "u"}"#), timestamp: 0, rule: &rule }];

    let mut engine = CorrelationEngine::new();
    engine.add_correlation_rule(section(CorrelationType::EventCount, &["a"], "5x", Some(CorrelationCondition { gte: Some(1), ..Default::default() })));
    assert!(matches!(engine.process_events(&events), Err(CorrelationError::InvalidTimespan(_))));

    let mut engine = CorrelationEngine::new();
    engine.add_correlation_rule(section(CorrelationType::ValueCount, &["a"], "5m", Some(CorrelationCondition { gte: Some(1), ..Default::default() })));
    assert!(matches!(engine.process_events(&events), Err(CorrelationError::InvalidRule(_))));

    let mut engine = CorrelationEngine::new();
    engine.add_correlation_rule(section(CorrelationType::EventCount, &["a"], "5m", None));
    assert!(matches!(engine.process_events(&events), Err(CorrelationError::InvalidRule(_))));

    assert!(CorrelationEngine::parse_timespan("0s").is_ok());
    assert!(CorrelationEngine::parse_timespan("99999999999999999999d").is_err());
    assert_eq!(CorrelationEngine::parse_timespan("007m").unwrap(), 420);
}

#[test]
fn test_engine_grouping_and_windows() {
    let rule_a = base("a");
    let rule_b = base("b");
    let other = base("unrelated");
    let at = |json: &str, t: i64, r: &'static str| (json.to_string(), t, r);
    let plan = vec![
        at(r#"{"user": 7}"#, 0, "a"),
        at(r#"{"user": 7}"#, 10, "b"),
        at(r#"{"user": 7}"#, 20, "x"),
        at(r#"{"user": 7}"#, 70, "a"),
        at(r#"{"name": "no user field"}"#, 5, "a"),
    ];
    let events: Vec<TimestampedEvent> = plan
        .iter()
        .map(|(json, t, r)| TimestampedEvent {
            event: ev(json),
            timestamp: *t as i128 * 1_000_000_000,
            rule: match *r {
                "a" => &rule_a,
                "b" => &rule_b,
                _ => &other,
            },
        })
        .collect();

    // Integer group values are grouped by their decimal text; a missing field by the empty text.
    let mut engine = CorrelationEngine::new();
    engine.add_correlation_rule(section(CorrelationType::EventCount, &["a", "b"], "1m", Some(CorrelationCondition { gte: Some(2), ..Default::default() })));
    let results = engine.process_events(&events).unwrap();
    assert_eq!(results.len(), 3);
    assert_eq!(results[0].aggregation_key.group_values, vec!["7"]);
    assert_eq!(results[0].count, 2);
    assert!(results[0].matched);
    assert_eq!(results[1].aggregation_key.group_values, vec!["7"]);
    assert_eq!(results[1].count, 1);
    assert!(!results[1].matched);
    assert_eq!(results[2].aggregation_key.group_values, vec![""]);
    assert_eq!(results[2].count, 1);
    assert_eq!(results[0].rule_title, "R");

    // Without a condition, a temporal rule fires once every referenced rule has fired.
    let mut engine = CorrelationEngine::new();
    engine.add_correlation_rule(section(CorrelationType::TemporalOrdered, &["a", "b"], "1m", None));
    let results = engine.process_events(&events).unwrap();
    assert_eq!(results.len(), 3);
    assert!(results[0].matched);
    assert_eq!(results[0].count, 2);
    assert!(!results[1].matched);
    assert!(!results[2].matched);
}

#[test]
fn test_custom_fields() {
    let rule = rule_from_yaml(
        "title: T\nreferences:\n  - https://example.org\ndetection:\n  s:\n    a: 1\n  condition: s\nfalsepositives: none\nlevel: high\n",
    )
    .unwrap();
    assert_eq!(rule.custom_fields.len(), 2);
    assert_eq!(rule.custom_fields[0].0, "references");
    assert!(matches!(&rule.custom_fields[0].1, FieldValue::Sequence(items) if items.len() == 1));
    assert_eq!(rule.custom_fields[1].0, "falsepositives");
    assert!(matches!(&rule.custom_fields[1].1, FieldValue::Text(t) if t == "none"));
    assert_eq!(rule.level.as_deref(), Some("high"));
}

#[test]
fn test_base64_modifiers() {
    let plain = one_field("Data|base64", "hello");
    assert!(plain.is_match(&ev(r#"{"Data": "aGVsbG8="}"#)));
    assert!(!plain.is_match(&ev(r#"{"Data": "aGVsbG8"}"#)));
    assert!(!plain.is_match(&ev(r#"{"Data": "hello"}"#)));

    let utf8 = one_field("Data|base64|contains", "é");
    assert!(utf8.is_match(&ev(r#"{"Data": "xxw6k="}"#)));

    // Each of the three alignments of "hello" inside a longer encoded text is found.
    let offset = one_field("Data|base64offset|contains", "hello");
    assert!(offset.is_match(&ev(r#"{"Data": "aGVsbG8gd29ybGQ="}"#)));
    assert!(offset.is_match(&ev(r#"{"Data": "eGhlbGxvIHdvcmxk"}"#)));
    assert!(offset.is_match(&ev(r#"{"Data": "eHloZWxsbyB3b3JsZA=="}"#)));
    assert!(!offset.is_match(&ev(r#"{"Data": "d29ybGQ="}"#)));
}

#[test]
fn test_utf16_encodings() {
    let wide = one_field("Cmd|wide|base64offset|contains", "ping");
    assert!(wide.is_match(&ev(r#"{"Cmd": "YwBtAGQAIAAvAGMAIABwAGkAbgBnACAAeAA="}"#)));
    assert!(!wide.is_match(&ev(r#"{"Cmd": "cGluZw=="}"#)));
    assert!(one_field("Cmd|utf16le|base64offset|contains", "ping")
        .is_match(&ev(r#"{"Cmd": "YwBtAGQAIAAvAGMAIABwAGkAbgBnACAAeAA="}"#)));
    assert!(one_field("Data|utf16be|base64", "ping").is_match(&ev(r#"{"Data": "AHAAaQBuAGc="}"#)));
    assert!(one_field("Data|utf16|base64", "ping").is_match(&ev(r#"{"Data": "//5wAGkAbgBnAA=="}"#)));
    assert!(one_field("Data|utf16le|base64", "é").is_match(&ev(r#"{"Data": "6QA="}"#)));
    // A character outside the basic plane becomes a surrogate pair.
    assert!(one_field("Data|utf16le|base64", "'\u{1F600}'").is_match(&ev(r#"{"Data": "PdgA3g=="}"#)));
}

#[test]
fn test_encoding_modifier_errors() {
    let bad = |key: &str, value: &str| {
        rule_from_yaml(&format!(
            "title: T\ndetection:\n  selection:\n    {}: {}\n  condition: selection\n",
            key, value
        ))
    };
    assert!(matches!(bad("Data|wide", "x"), Err(RuleError::InvalidField(_))));
    assert!(matches!(bad("Data|base64|re", "x"), Err(RuleError::InvalidField(_))));
    assert!(matches!(bad("Data|base64", "'a*'"), Err(RuleError::InvalidField(_))));
    assert!(matches!(bad("Data|base64|windash", "x"), Err(RuleError::InvalidField(_))));
    match bad("Data|base64|base64offset", "x") {
        Err(RuleError::InvalidField(m)) => {
            assert_eq!(m, "Field modifier 'base64offset' cannot be combined with the modifiers before it")
        },
        _ => panic!("expected a field error"),
    }
}

#[test]
fn test_unknown_modifier_message() {
    let yaml = "title: t\nlogsource:\ndetection:\n  selection:\n    Image|bogus: x\n  condition: selection\n";
    match rule_from_yaml(yaml) {
        Err(RuleError::InvalidField(m)) => {
            assert!(m.contains("Unknown field modifier 'bogus'"));
            assert_eq!(m, "Unknown field modifier 'bogus'");
        },
        _ => panic!("expected a field error"),
    }
    match rule_from_yaml("title: t\ndetection:\n  selection:\n    Image|contains|startswith: x\n  condition: selection\n") {
        Err(RuleError::InvalidField(m)) => {
            assert_eq!(m, "Field modifier 'startswith' cannot be combined with the modifiers before it")
        },
        _ => panic!("expected a field error"),
    }
}

#[test]
fn test_sub_second_windows() {
    // Events 0.8 s apart share a one-second window although they fall in different seconds.
    let rule = base("a");
    let second: i128 = 1_000_000_000;
    let events = vec![
        TimestampedEvent { event: ev(r#"{"user": "u"}"#), timestamp: 6 * second / 10, rule: &rule },
        TimestampedEvent { event: ev(r#"{"user": "u"}"#), timestamp: 14 * second / 10, rule: &rule },
    ];
    let mut engine = CorrelationEngine::new();
    engine.add_correlation_rule(section(CorrelationType::EventCount, &["a"], "1s", Some(CorrelationCondition { gte: Some(2), ..Default::default() })));
    let results = engine.process_events(&events).unwrap();
    assert_eq!(results.len(), 1);
    assert!(results[0].matched);
}

#[test]
fn test_correlation_error_parts() {
    let part = |yaml: &str| match parse_correlation_rule_from_yaml(yaml) {
        Err(CorrelationError::InvalidRule(m)) => m,
        _ => panic!("expected a rule error"),
    };
    assert_eq!(part("title: C\ncorrelation:\n  type: event_count\n  rules: a\n"), "timespan");
    assert_eq!(part("title: C\ncorrelation:\n  type: nope\n  rules: a\n  timespan: 1m\n"), "type");
    assert_eq!(
        part("title: C\ncorrelation:\n  type: event_count\n  rules: a\n  timespan: 1m\n  condition:\n    gte: -1\n"),
        "gte"
    );
    assert_eq!(part("title: C\ntags: 3\ncorrelation:\n  type: event_count\n"), "tags");
    assert_eq!(part("- 1\n"), "the rule is not a mapping");
    match parse_rules_from_yaml("title: B\ndetection: 3\n") {
        Err(CorrelationError::InvalidRule(m)) => assert_eq!(m, "a base rule"),
        _ => panic!("expected a rule error"),
    }
}

#[test]
fn test_integer_group_values() {
    let rule = base("a");
    let events: Vec<TimestampedEvent> = [r#"{"user": -42}"#, r#"{"user": -9223372036854775808}"#, r#"{"user": 0}"#]
        .iter()
        .map(|j| TimestampedEvent { event: ev(j), timestamp: 0, rule: &rule })
        .collect();
    let mut engine = CorrelationEngine::new();
    engine.add_correlation_rule(section(CorrelationType::EventCount, &["a"], "1m", Some(CorrelationCondition { gte: Some(1), ..Default::default() })));
    let results = engine.process_events(&events).unwrap();
    assert_eq!(results[0].aggregation_key.group_values, vec!["-42"]);
    assert_eq!(results[1].aggregation_key.group_values, vec!["-9223372036854775808"]);
    assert_eq!(results[2].aggregation_key.group_values, vec!["0"]);
}

#[test]
fn test_unsigned_bounds() {
    let yaml = |bound: &str| {
        format!("title: C\ncorrelation:\n  type: event_count\n  rules: a\n  timespan: 1m\n  condition:\n    gte: {}\n", bound)
    };
    let rule = parse_correlation_rule_from_yaml(&yaml("18446744073709551615")).unwrap();
    assert_eq!(rule.correlation.condition.unwrap().gte, Some(u64::MAX));
    let rule = parse_correlation_rule_from_yaml(&yaml("9223372036854775808")).unwrap();
    assert_eq!(rule.correlation.condition.unwrap().gte, Some(9223372036854775808));
    // Past u64, the YAML parser itself refuses the integer.
    assert!(matches!(
        parse_correlation_rule_from_yaml(&yaml("18446744073709551616")),
        Err(CorrelationError::Yaml(_))
    ));
}

#[test]
fn test_both_grouping_spellings_rejected() {
    let yaml = "title: C\ncorrelation:\n  type: event_count\n  rules: a\n  group-by: user\n  group_by: host\n  timespan: 1m\n";
    match parse_correlation_rule_from_yaml(yaml) {
        Err(CorrelationError::InvalidRule(m)) => assert_eq!(m, "group-by"),
        _ => panic!("expected a rule error"),
    }
}

#[test]
fn test_unsigned_event_values() {
    let e = ev(r#"{"n": 18446744073709551615}"#);
    assert!(matches!(e.get("n"), Some(FieldValue::Int(18446744073709551615))));
    assert!(one_field("n", "18446744073709551615").is_match(&e));
    assert!(one_field("n|gt", "18446744073709551614").is_match(&e));
    assert!(!one_field("n|lt", "0").is_match(&e));
}

#[test]
fn test_event_from_arrays() {
    let texts = Event::from([("a", "x"), ("b", "y"), ("a", "z")]);
    assert!(matches!(texts.get("a"), Some(FieldValue::Text(s)) if s == "z"));
    assert!(matches!(texts.get("b"), Some(FieldValue::Text(s)) if s == "y"));
    assert_eq!(texts.fields.len(), 2);
    let flags = Event::from([("f", true)]);
    assert!(matches!(flags.get("f"), Some(FieldValue::Bool(true))));
    let numbers = Event::from([("n", -7i64)]);
    assert!(matches!(numbers.get("n"), Some(FieldValue::Int(-7))));
    assert!(one_field("n", "-7").is_match(&numbers));
}

#[test]
fn test_timestamps_beyond_the_nanosecond_i64_range() {
    let rule = base("a");
    let year_3000: i128 = 32_503_680_000 * 1_000_000_000;
    let events: Vec<TimestampedEvent> = [year_3000, year_3000 + 30_000_000_000, year_3000 + 120_000_000_000]
        .iter()
        .map(|t| TimestampedEvent { event: ev(r#"{"user": "u"}"#), timestamp: *t, rule: &rule })
        .collect();
    let mut engine = CorrelationEngine::new();
    engine.add_correlation_rule(section(CorrelationType::EventCount, &["a"], "1m", Some(CorrelationCondition { gte: Some(2), ..Default::default() })));
    let results = engine.process_events(&events).unwrap();
    let matched: Vec<_> = results.iter().filter(|r| r.matched).collect();
    assert_eq!(matched.len(), 1);
    assert_eq!(matched[0].count, 2);
}
