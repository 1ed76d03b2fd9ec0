# sigma_rust

A verified library for reading Sigma detection rules and Sigma correlation rules and
checking them against log events.

- `src/` is the library, written in Verus. Every function carries a contract over
  mathematical models of rules, events and conditions, and Verus proves each one.
  - `event`: events and the values they hold; dotted field paths.
  - `wildcard`: Sigma string wildcards (`*`, `?`, backslash escapes).
  - `detection`: field conditions, their modifiers, selections and keywords.
  - `encoding`: the value encodings of `base64`, `base64offset`, `wide`/`utf16le`, `utf16be`
    and `utf16`.
  - `condition`: the condition grammar, its parser and its evaluation.
  - `rule`: reading a rule from its YAML tree, and matching a rule against an event.
  - `correlation`, `correlation_reader`, `engine`: correlation rules, how they are read,
    and how they are evaluated over timestamped events (`event_count`, `value_count`,
    `temporal`, `temporal_ordered`).
  - `laws`: properties of the library as a whole (what `neq` means, how modifiers combine,
    what `contains`, `startswith` and `endswith` test, how the correlation kinds relate).
  - `backends`, `outside_types`: the calls into `yaml_serde`, `serde_json`, `regex`,
    `cidr`, `base64` and std whose contracts are trusted; each doc comment says what is claimed.
- `tests/` runs the library on concrete rules and events.
- `app/` holds what needs outside traits: `chrono` timestamps (the library counts time in
  nanoseconds since the epoch), `std::time::Duration`
  timespans, and writing correlation rules back out as YAML with `serde`.
