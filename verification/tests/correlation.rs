use chrono::{DateTime, Duration as ChronoDuration, Utc};
use sigma_rust::correlation::{
    parse_correlation_rule_from_yaml, parse_rules_from_yaml, CorrelationCondition, CorrelationEngine,
    CorrelationSection, CorrelationType, SigmaCorrelationRule, TimestampedEvent,
};
use sigma_rust::{event_from_json, rule_from_yaml, Rule};

fn create_test_rule(title: &str) -> Rule {
    let yaml = format!(
        "title: {}\nlogsource:\n  category: test\n  product: test\ndetection:\n  selection:\n    field: value\n  condition: selection",
        title
    );
    rule_from_yaml(&yaml).unwrap()
}

/// Nanoseconds since the epoch of an RFC 3339 time.
fn epoch_nanos(text: &str) -> i128 {
    let t = DateTime::parse_from_rfc3339(text).unwrap().with_timezone(&Utc);
    t.timestamp() as i128 * 1_000_000_000 + t.timestamp_subsec_nanos() as i128
}

/// Nanoseconds in a duration.
fn nanos(d: ChronoDuration) -> i128 {
    d.num_nanoseconds().unwrap() as i128
}

#[test]
fn test_parse_timespan() {
    assert_eq!(
        std::time::Duration::from_secs(CorrelationEngine::parse_timespan("30s").unwrap()),
        std::time::Duration::from_secs(30)
    );
    assert_eq!(
        std::time::Duration::from_secs(CorrelationEngine::parse_timespan("5m").unwrap()),
        std::time::Duration::from_secs(300)
    );
    assert_eq!(
        std::time::Duration::from_secs(CorrelationEngine::parse_timespan("1h").unwrap()),
        std::time::Duration::from_secs(3600)
    );
    assert_eq!(
        std::time::Duration::from_secs(CorrelationEngine::parse_timespan("2d").unwrap()),
        std::time::Duration::from_secs(172800)
    );

    assert!(CorrelationEngine::parse_timespan("").is_err());
    assert!(CorrelationEngine::parse_timespan("5x").is_err());
    assert!(CorrelationEngine::parse_timespan("abc").is_err());
    assert!(CorrelationEngine::parse_timespan("5").is_err());
}

#[test]
fn test_correlation_condition_comprehensive() {
    let condition = CorrelationCondition {
        gte: Some(10),
        ..Default::default()
    };
    assert!(condition.matches(10));
    assert!(condition.matches(15));
    assert!(!condition.matches(5));

    let condition = CorrelationCondition {
        lte: Some(20),
        ..Default::default()
    };
    assert!(condition.matches(20));
    assert!(condition.matches(15));
    assert!(!condition.matches(25));

    let condition = CorrelationCondition {
        eq: Some(10),
        ..Default::default()
    };
    assert!(condition.matches(10));
    assert!(!condition.matches(15));
    assert!(!condition.matches(5));

    let condition = CorrelationCondition {
        gt: Some(5),
        ..Default::default()
    };
    assert!(condition.matches(10));
    assert!(!condition.matches(5));
    assert!(!condition.matches(3));

    let condition = CorrelationCondition {
        lt: Some(10),
        ..Default::default()
    };
    assert!(condition.matches(5));
    assert!(!condition.matches(10));
    assert!(!condition.matches(15));

    let condition = CorrelationCondition {
        gte: Some(5),
        lte: Some(20),
        ..Default::default()
    };
    assert!(condition.matches(10));
    assert!(condition.matches(5));
    assert!(condition.matches(20));
    assert!(!condition.matches(3));
    assert!(!condition.matches(25));
}

#[test]
fn test_group_by_accepts_the_hyphenated_spec_key() {
    let hyphenated = r#"
title: Grouped
correlation:
  type: event_count
  rules:
    - base
  group-by:
    - user
    - src_ip
  timespan: 5m
  condition:
    gte: 3
"#;
    let rule = parse_correlation_rule_from_yaml(hyphenated).unwrap();
    assert!(
        rule.correlation.group_by.is_some(),
        "the spec key `group-by` must deserialize into `group_by`"
    );
    assert_eq!(
        rule.correlation.group_by.unwrap(),
        vec!["user".to_string(), "src_ip".to_string()]
    );

    let underscored = hyphenated.replace("group-by:", "group_by:");
    let rule = parse_correlation_rule_from_yaml(&underscored).unwrap();
    assert_eq!(
        rule.correlation.group_by.unwrap(),
        vec!["user".to_string(), "src_ip".to_string()]
    );

    let ungrouped = r#"
title: Ungrouped
correlation:
  type: event_count
  rules:
    - base
  timespan: 5m
  condition:
    gte: 3
"#;
    let rule = parse_correlation_rule_from_yaml(ungrouped).unwrap();
    assert!(rule.correlation.group_by.is_none());
}

#[test]
fn test_aliases_parse_in_the_spec_two_level_form() {
    let yaml = r#"
title: Aliased
correlation:
  type: event_count
  rules:
    - rule_a
    - rule_b
  group-by:
    - user
  timespan: 5m
  condition:
    gte: 2
  aliases:
    user:
      rule_a: TargetUserName
      rule_b: SubjectUserName
"#;
    let rule = parse_correlation_rule_from_yaml(yaml).unwrap();
    let aliases = rule.correlation.aliases.as_ref().expect("aliases parsed");
    assert_eq!(aliases.field_for("user", "rule_a"), Some(&"TargetUserName".to_string()));
    assert_eq!(aliases.field_for("user", "rule_b"), Some(&"SubjectUserName".to_string()));
}

#[test]
fn test_aliases_resolve_fields_per_referenced_rule() {
    let yaml = r#"
title: Aliased
correlation:
  type: event_count
  rules:
    - rule_a
    - rule_b
  group-by:
    - user
  timespan: 5m
  condition:
    gte: 2
  aliases:
    user:
      rule_a: TargetUserName
      rule_b: SubjectUserName
"#;
    let rule = parse_correlation_rule_from_yaml(yaml).unwrap();

    let rule_a = create_test_rule("rule_a");
    let rule_b = create_test_rule("rule_b");

    let mut engine = CorrelationEngine::new();
    engine.add_correlation_rule(rule);

    let base_time = epoch_nanos("2024-01-01T10:00:00Z");

    let events = vec![
        TimestampedEvent {
            event: event_from_json(r#"{"TargetUserName": "alice"}"#).unwrap(),
            timestamp: base_time,
            rule: &rule_a,
        },
        TimestampedEvent {
            event: event_from_json(r#"{"SubjectUserName": "alice"}"#).unwrap(),
            timestamp: base_time + nanos(ChronoDuration::seconds(30)),
            rule: &rule_b,
        },
        TimestampedEvent {
            event: event_from_json(r#"{"TargetUserName": "bob"}"#).unwrap(),
            timestamp: base_time,
            rule: &rule_a,
        },
    ];

    let results = engine.process_events(&events).unwrap();
    let matched: Vec<_> = results.iter().filter(|r| r.matched).collect();
    assert_eq!(
        matched.len(),
        1,
        "only alice's two differently-named fields should collapse into one group"
    );
    assert_eq!(matched[0].count, 2);
    assert_eq!(matched[0].aggregation_key.group_values, vec!["alice"]);
}

#[test]
fn test_rules_accepts_a_scalar() {
    let yaml = r#"
title: Single rule
correlation:
  type: event_count
  rules: single_rule
  group-by:
    - user
  timespan: 5m
  condition:
    gte: 3
"#;
    let rule = parse_correlation_rule_from_yaml(yaml).unwrap();
    assert_eq!(rule.correlation.rules, vec!["single_rule".to_string()]);

    let as_seq = yaml.replace("rules: single_rule", "rules:\n    - single_rule");
    let rule = parse_correlation_rule_from_yaml(&as_seq).unwrap();
    assert_eq!(rule.correlation.rules, vec!["single_rule".to_string()]);
}

#[test]
fn test_group_by_accepts_a_scalar() {
    let yaml = r#"
title: Single group key
correlation:
  type: event_count
  rules:
    - base
  group-by: user
  timespan: 5m
  condition:
    gte: 3
"#;
    let rule = parse_correlation_rule_from_yaml(yaml).unwrap();
    assert_eq!(
        rule.correlation.group_by,
        Some(vec!["user".to_string()]),
        "a scalar `group-by` must become a one-element list"
    );

    let underscored = yaml.replace("group-by: user", "group_by: user");
    let rule = parse_correlation_rule_from_yaml(&underscored).unwrap();
    assert_eq!(rule.correlation.group_by, Some(vec!["user".to_string()]));
}

#[test]
fn test_parse_correlation_rule() {
    let yaml = r#"
title: Multiple failed logons for a single user
status: test
correlation:
  type: event_count
  rules:
    - failed_logon
  group-by:
    - TargetUserName
    - TargetDomainName
  timespan: 5m
  condition:
    gte: 10
tags:
  - brute_force
  - attack.t1110
"#;

    let rule = parse_correlation_rule_from_yaml(yaml).unwrap();
    assert_eq!(rule.title, "Multiple failed logons for a single user");
    assert_eq!(rule.correlation.correlation_type, CorrelationType::EventCount);
    assert_eq!(rule.correlation.rules, vec!["failed_logon"]);
    assert_eq!(
        rule.correlation.group_by,
        Some(vec!["TargetUserName".to_string(), "TargetDomainName".to_string()])
    );
    assert_eq!(rule.correlation.timespan, "5m");
    assert_eq!(rule.correlation.condition.unwrap().gte, Some(10));
}

#[test]
fn test_parse_value_count_correlation_rule() {
    let yaml = r#"
title: Enumeration of multiple high-privilege groups
status: stable
correlation:
  type: value_count
  rules:
    - privileged_group_enumeration
  group-by:
    - SubjectUserName
  timespan: 15m
  condition:
    gte: 4
    field: TargetUserName
level: high
"#;

    let rule = parse_correlation_rule_from_yaml(yaml).unwrap();
    assert_eq!(rule.correlation.correlation_type, CorrelationType::ValueCount);
    assert_eq!(rule.correlation.group_by, Some(vec!["SubjectUserName".to_string()]));
    assert_eq!(
        rule.correlation.condition.as_ref().unwrap().field,
        Some("TargetUserName".to_string())
    );
    assert_eq!(rule.correlation.condition.unwrap().gte, Some(4));
}

#[test]
fn test_parse_temporal_correlation_rule() {
    let yaml = r#"
title: CVE-2023-22518 Exploit Chain
description: Access to endpoint vulnerable to CVE-2023-22518 with suspicious process creation
status: experimental
correlation:
  type: temporal
  rules:
    - a902d249-9b9c-4dc4-8fd0-fbe528ef965c
    - 1ddaa9a4-eb0b-4398-a9fe-7b018f9e23db
  timespan: 10s
  condition:
    gte: 2
level: high
"#;

    let rule = parse_correlation_rule_from_yaml(yaml).unwrap();
    assert_eq!(rule.correlation.correlation_type, CorrelationType::Temporal);
    assert_eq!(rule.correlation.rules.len(), 2);
    assert_eq!(rule.correlation.timespan, "10s");
}

#[test]
fn parse_correlation_and_base_rules() {
    let yaml = r#"
title: Correlation Rule
correlation:
  type: temporal
  rules:
    - rule1
    - rule2
  timespan: 15m
  condition:
    eq: 2
---
name: rule1
title: Base Rule 1
logsource:
    category: test
    product: windows
detection:
  selection:
    field1: value1
  condition: selection
---
name: rule2
title: Base Rule 2
logsource:
    category: test
    product: windows
detection:
  selection:
    field2: value2
  condition: selection
"#;

    let (correlation_rules, base_rules) = parse_rules_from_yaml(yaml).unwrap();

    assert_eq!(correlation_rules.len(), 1);
    assert_eq!(base_rules.len(), 2);

    assert_eq!(correlation_rules[0].title, "Correlation Rule");

    assert_eq!(base_rules[0].0, "rule1");
    assert_eq!(base_rules[1].0, "rule2");
}

fn counting_rule(
    title: &str,
    kind: CorrelationType,
    rules: Vec<String>,
    timespan: &str,
    condition: CorrelationCondition,
) -> SigmaCorrelationRule {
    SigmaCorrelationRule {
        title: title.to_string(),
        correlation: CorrelationSection {
            correlation_type: kind,
            rules,
            group_by: Some(vec!["user".to_string()]),
            timespan: timespan.to_string(),
            condition: Some(condition),
            generate: None,
            aliases: None,
        },
        ..Default::default()
    }
}

#[test]
fn test_event_count_correlation() {
    let mut engine = CorrelationEngine::new();
    engine.add_correlation_rule(counting_rule(
        "Test Rule",
        CorrelationType::EventCount,
        vec!["test_rule".to_string()],
        "5m",
        CorrelationCondition {
            gte: Some(3),
            ..Default::default()
        },
    ));

    let base_time = epoch_nanos("2025-01-01T00:00:00Z");
    let rule: Rule = create_test_rule("test_rule");
    let events = vec![
        TimestampedEvent {
            event: event_from_json(r#"{"user": "alice"}"#).unwrap(),
            timestamp: base_time,
            rule: &rule,
        },
        TimestampedEvent {
            event: event_from_json(r#"{"user": "alice"}"#).unwrap(),
            timestamp: base_time + nanos(ChronoDuration::seconds(30)),
            rule: &rule,
        },
        TimestampedEvent {
            event: event_from_json(r#"{"user": "alice"}"#).unwrap(),
            timestamp: base_time + nanos(ChronoDuration::seconds(60)),
            rule: &rule,
        },
    ];

    let results = engine.process_events(&events).unwrap();
    assert_eq!(results.len(), 1);
    assert!(results[0].matched);
    assert_eq!(results[0].count, 3);
}

#[test]
fn test_event_count_correlation_multiple_groups() {
    let mut engine = CorrelationEngine::new();
    engine.add_correlation_rule(counting_rule(
        "Test Rule",
        CorrelationType::EventCount,
        vec!["test_rule".to_string()],
        "5m",
        CorrelationCondition {
            gte: Some(2),
            ..Default::default()
        },
    ));

    let base_time = epoch_nanos("2025-01-01T00:00:00Z");
    let rule: Rule = create_test_rule("test_rule");
    let at = |user: &str, secs: i64| TimestampedEvent {
        event: event_from_json(&format!(r#"{{"user": "{}"}}"#, user)).unwrap(),
        timestamp: base_time + nanos(ChronoDuration::seconds(secs)),
        rule: &rule,
    };
    let events = vec![
        at("alice", 0),
        at("alice", 30),
        at("bob", 60),
        at("bob", 90),
        at("charlie", 120),
    ];

    let results = engine.process_events(&events).unwrap();
    assert_eq!(results.len(), 3);

    let matched_results: Vec<_> = results.iter().filter(|r| r.matched).collect();
    assert_eq!(matched_results.len(), 2);

    for result in matched_results {
        assert_eq!(result.count, 2);
    }
}

#[test]
fn test_event_count_time_window() {
    let mut engine = CorrelationEngine::new();
    engine.add_correlation_rule(counting_rule(
        "Test Rule",
        CorrelationType::EventCount,
        vec!["test_rule".to_string()],
        "5m",
        CorrelationCondition {
            gte: Some(3),
            lte: None,
            eq: None,
            gt: None,
            lt: None,
            field: None,
        },
    ));
    let rule: Rule = create_test_rule("test_rule");
    let base_time = epoch_nanos("2025-01-01T00:00:00Z");
    let at = |mins: i64| TimestampedEvent {
        event: event_from_json(r#"{"user": "alice"}"#).unwrap(),
        timestamp: base_time + nanos(ChronoDuration::minutes(mins)),
        rule: &rule,
    };
    let events = vec![at(0), at(2), at(4), at(10)];

    let results = engine.process_events(&events).unwrap();
    assert_eq!(results.len(), 2);

    let matched_results: Vec<_> = results.iter().filter(|r| r.matched).collect();
    assert_eq!(matched_results.len(), 1);
    assert_eq!(matched_results[0].count, 3);
}

#[test]
fn test_value_count_correlation() {
    let mut engine = CorrelationEngine::new();
    engine.add_correlation_rule(counting_rule(
        "Test Value Count Rule",
        CorrelationType::ValueCount,
        vec!["test_rule".to_string()],
        "15m",
        CorrelationCondition {
            gte: Some(3),
            lte: None,
            eq: None,
            gt: None,
            lt: None,
            field: Some("target".to_string()),
        },
    ));

    let base_time = epoch_nanos("2025-01-01T00:00:00Z");
    let rule: Rule = create_test_rule("test_rule");
    let at = |user: &str, target: &str, mins: i64| TimestampedEvent {
        event: event_from_json(&format!(r#"{{"user": "{}", "target": "{}"}}"#, user, target)).unwrap(),
        timestamp: base_time + nanos(ChronoDuration::minutes(mins)),
        rule: &rule,
    };
    let events = vec![
        at("alice", "system1", 0),
        at("alice", "system2", 5),
        at("alice", "system3", 10),
        at("bob", "system1", 0),
        at("bob", "system2", 5),
        at("bob", "system2", 10),
    ];

    let results = engine.process_events(&events).unwrap();
    assert_eq!(results.len(), 2);

    let matched_results: Vec<_> = results.iter().filter(|r| r.matched).collect();
    assert_eq!(matched_results.len(), 1);

    for result in &matched_results {
        if result.aggregation_key.group_values.contains(&"alice".to_string()) {
            assert_eq!(result.count, 3);
        }
    }

    let unmatched_results: Vec<_> = results.iter().filter(|r| !r.matched).collect();
    for result in &unmatched_results {
        if result.aggregation_key.group_values.contains(&"bob".to_string()) {
            assert_eq!(result.count, 2);
        }
    }
}

#[test]
fn test_temporal_correlation() {
    let mut engine = CorrelationEngine::new();
    engine.add_correlation_rule(counting_rule(
        "Temporal Sequence Test",
        CorrelationType::Temporal,
        vec!["rule_a".to_string(), "rule_b".to_string()],
        "1m",
        CorrelationCondition {
            gte: Some(2),
            ..Default::default()
        },
    ));

    let base_time = epoch_nanos("2025-01-01T00:00:00Z");
    let rule_a: Rule = create_test_rule("rule_a");
    let rule_b: Rule = create_test_rule("rule_b");
    let at = |user: &str, secs: i64, rule: &'static str| (user.to_string(), secs, rule);
    let plan = vec![
        at("alice", 0, "a"),
        at("alice", 30, "b"),
        at("bob", 5, "a"),
        at("bob", 45, "b"),
        at("charlie", 0, "a"),
        at("dave", 0, "a"),
        at("dave", ChronoDuration::minutes(2).num_seconds(), "b"),
    ];
    let events: Vec<TimestampedEvent> = plan
        .iter()
        .map(|(user, secs, r)| TimestampedEvent {
            event: event_from_json(&format!(r#"{{"user": "{}"}}"#, user)).unwrap(),
            timestamp: base_time + nanos(ChronoDuration::seconds(*secs)),
            rule: if *r == "a" { &rule_a } else { &rule_b },
        })
        .collect();

    let results = engine.process_events(&events).unwrap();

    assert_eq!(results.len(), 5);

    let matched_results: Vec<_> = results.iter().filter(|r| r.matched).collect();
    assert_eq!(matched_results.len(), 2);

    for result in &matched_results {
        assert_eq!(result.count, 2);
        let group_value = &result.aggregation_key.group_values[0];
        assert!(group_value == "alice" || group_value == "bob");
    }
}

#[test]
fn test_ordered_temporal_correlation() {
    let mut engine = CorrelationEngine::new();
    engine.add_correlation_rule(counting_rule(
        "Ordered Temporal Sequence Test",
        CorrelationType::TemporalOrdered,
        vec!["rule_a".to_string(), "rule_b".to_string(), "rule_c".to_string()],
        "1m",
        CorrelationCondition {
            gte: Some(3),
            ..Default::default()
        },
    ));

    let base_time = epoch_nanos("2025-01-01T00:00:00Z");
    let rule_a: Rule = create_test_rule("rule_a");
    let rule_b: Rule = create_test_rule("rule_b");
    let rule_c: Rule = create_test_rule("rule_c");
    let plan: Vec<(&str, i64, &Rule)> = vec![
        ("alice", 0, &rule_a),
        ("alice", 15, &rule_b),
        ("alice", 30, &rule_c),
        ("bob", 0, &rule_b),
        ("bob", 20, &rule_a),
        ("bob", 40, &rule_c),
        ("charlie", 0, &rule_a),
        ("charlie", 30, &rule_c),
        ("dave", 0, &rule_a),
        ("dave", 30, &rule_b),
        ("dave", ChronoDuration::minutes(2).num_seconds(), &rule_c),
    ];
    let events: Vec<TimestampedEvent> = plan
        .into_iter()
        .map(|(user, secs, rule)| TimestampedEvent {
            event: event_from_json(&format!(r#"{{"user": "{}"}}"#, user)).unwrap(),
            timestamp: base_time + nanos(ChronoDuration::seconds(secs)),
            rule,
        })
        .collect();

    let results = engine.process_events(&events).unwrap();

    assert_eq!(results.len(), 5);

    let matched_results: Vec<_> = results.iter().filter(|r| r.matched).collect();
    assert_eq!(matched_results.len(), 1);

    for result in &matched_results {
        assert_eq!(result.count, 3);
        let group_value = &result.aggregation_key.group_values[0];
        assert_eq!(group_value, "alice");
    }
}
