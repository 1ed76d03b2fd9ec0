//! The calls into std and into the outside crates that the library relies on. Verus believes
//! the contract of each item here; each doc comment says what that contract claims.
use vstd::prelude::*;
use crate::event::FieldValue;

verus! {

/// What `str::to_lowercase` returns for a text that is not all ASCII.
pub uninterp spec fn unicode_lowercase(s: Seq<char>) -> Seq<char>;

/// Every character of the text is ASCII.
pub open spec fn is_ascii_text(s: Seq<char>) -> bool {
    forall|i: int| 0 <= i < s.len() ==> (#[trigger] s[i] as u32) < 128
}

/// `A`–`Z` become `a`–`z`; any other character stays.
pub open spec fn ascii_lower_char(c: char) -> char {
    if 'A' <= c && c <= 'Z' { ((c as u32) + 32) as char } else { c }
}

/// The text with `A`–`Z` made `a`–`z`.
pub open spec fn ascii_lower(s: Seq<char>) -> Seq<char> {
    Seq::new(s.len(), |i: int| ascii_lower_char(s[i]))
}

/// What `str::to_lowercase` returns: on an ASCII text, `A`–`Z` become `a`–`z` and every
/// other character stays, as std documents for ASCII; on any other text, the name
/// [`unicode_lowercase`].
pub open spec fn lowercase(s: Seq<char>) -> Seq<char> {
    if is_ascii_text(s) { ascii_lower(s) } else { unicode_lowercase(s) }
}

/// `str::to_lowercase` (std): the lowercase form of `s`, by Unicode's `Lowercase` mapping.
/// The contract states the mapping on ASCII text and names it on any other text (see
/// [`lowercase`]).
#[verifier::external_body]
pub(crate) fn to_lowercase(s: &str) -> (res: String)
    ensures
        is_ascii_text(s@) ==> res@ == ascii_lower(s@),
        !is_ascii_text(s@) ==> res@ == unicode_lowercase(s@),
        res@ == lowercase(s@),
{
    s.to_lowercase()
}

/// Whether `regex::RegexBuilder::build` accepts `pattern` with the three flags given.
pub uninterp spec fn regex_valid(pattern: Seq<char>, case_insensitive: bool, multi_line: bool, dot_all: bool) -> bool;

/// What `regex::Regex::is_match` answers for `pattern`, compiled with the three flags given,
/// on `haystack`; `None` where the pattern does not compile.
pub uninterp spec fn regex_search(
    pattern: Seq<char>,
    case_insensitive: bool,
    multi_line: bool,
    dot_all: bool,
    haystack: Seq<char>,
) -> Option<bool>;

/// `regex::RegexBuilder::new(..).case_insensitive(..).multi_line(..)
/// .dot_matches_new_line(..).build()`: whether the pattern compiles with these flags.
#[verifier::external_body]
pub(crate) fn regex_compiles(pattern: &str, case_insensitive: bool, multi_line: bool, dot_all: bool) -> (res: bool)
    ensures
        res == regex_valid(pattern@, case_insensitive, multi_line, dot_all),
{
    regex::RegexBuilder::new(pattern)
        .case_insensitive(case_insensitive)
        .multi_line(multi_line)
        .dot_matches_new_line(dot_all)
        .build()
        .is_ok()
}

/// Builds the regex as [`regex_compiles`] does and calls `regex::Regex::is_match` on
/// `haystack`. The contract names the answer, and states that it is `None` exactly where
/// the pattern does not compile (building is a function of the pattern and flags alone).
#[verifier::external_body]
pub(crate) fn regex_is_match(
    pattern: &str,
    case_insensitive: bool,
    multi_line: bool,
    dot_all: bool,
    haystack: &str,
) -> (res: Option<bool>)
    ensures
        res == regex_search(pattern@, case_insensitive, multi_line, dot_all, haystack@),
        res is Some <==> regex_valid(pattern@, case_insensitive, multi_line, dot_all),
{
    let re = regex::RegexBuilder::new(pattern)
        .case_insensitive(case_insensitive)
        .multi_line(multi_line)
        .dot_matches_new_line(dot_all)
        .build()
        .ok()?;
    Some(re.is_match(haystack))
}

/// Whether `<cidr::IpCidr as FromStr>::from_str` accepts `network`.
pub uninterp spec fn cidr_valid(network: Seq<char>) -> bool;

/// What `cidr::IpCidr::contains` answers for the network `network` and the address
/// `address`; `None` where either does not parse.
pub uninterp spec fn cidr_membership(network: Seq<char>, address: Seq<char>) -> Option<bool>;

/// `<cidr::IpCidr as FromStr>::from_str`: whether `network` is a valid network in CIDR
/// notation.
#[verifier::external_body]
pub(crate) fn cidr_parses(network: &str) -> (res: bool)
    ensures
        res == cidr_valid(network@),
{
    network.parse::<cidr::IpCidr>().is_ok()
}

/// Parses `network` with `<cidr::IpCidr as FromStr>::from_str` and `address` as an IP
/// address, and calls `cidr::IpCidr::contains`. The contract names the answer, and states
/// that it is `None` where the network does not parse.
#[verifier::external_body]
pub(crate) fn cidr_contains(network: &str, address: &str) -> (res: Option<bool>)
    ensures
        res == cidr_membership(network@, address@),
        !cidr_valid(network@) ==> res is None,
{
    let net = network.parse::<cidr::IpCidr>().ok()?;
    let addr = address.parse().ok()?;
    Some(net.contains(&addr))
}


/// The tree that `yaml_serde::from_str::<yaml_serde::Value>` reads from `text`, in the
/// library's [`FieldValue`] form; `None` where the text is not one YAML document.
pub uninterp spec fn yaml_document(text: Seq<char>) -> Option<FieldValue>;

/// The trees of the documents that `yaml_serde::Deserializer::from_str` finds in `text`, in
/// order; `None` where one of them cannot be read.
pub uninterp spec fn yaml_documents(text: Seq<char>) -> Option<Seq<FieldValue>>;

/// The message that `yaml_serde::from_str::<yaml_serde::Value>` reports for `text` where it
/// cannot read it (the error's `Display` text).
pub uninterp spec fn yaml_error_text(text: Seq<char>) -> Seq<char>;

/// The message that the first failing document of `yaml_serde::Deserializer::from_str`
/// reports for `text` (the error's `Display` text).
pub uninterp spec fn yaml_stream_error_text(text: Seq<char>) -> Seq<char>;

/// The message that `serde_json::from_str::<serde_json::Value>` reports for `text` where it
/// cannot read it (the error's `Display` text).
pub uninterp spec fn json_error_text(text: Seq<char>) -> Seq<char>;

/// The tree that `serde_json::from_str::<serde_json::Value>` reads from `text`, in the
/// library's [`FieldValue`] form; `None` where the text is not one JSON value.
pub uninterp spec fn json_document(text: Seq<char>) -> Option<FieldValue>;

/// Moves a `yaml_serde::Value` into the library's [`FieldValue`], variant by variant: a number that
/// the crate holds as an unsigned or a signed integer (`as_u64` or `as_i64` gives it) becomes
/// [`FieldValue::Int`], a float [`FieldValue::Number`] with the text that `yaml_serde` prints for it, and a tagged value its inner value. Nothing is
/// stated of it; [`parse_yaml`] names the composite result.
#[verifier::external_body]
fn tree_of_yaml(v: yaml_serde::Value) -> FieldValue {
    match v {
        yaml_serde::Value::Null => FieldValue::Null,
        yaml_serde::Value::Bool(b) => FieldValue::Bool(b),
        yaml_serde::Value::Number(n) => n.as_u64().map(i128::from).or(n.as_i64().map(i128::from))
            .map_or_else(|| FieldValue::Number(n.to_string()), FieldValue::Int),
        yaml_serde::Value::String(s) => FieldValue::Text(s),
        yaml_serde::Value::Sequence(items) => FieldValue::Sequence(items.into_iter().map(tree_of_yaml).collect()),
        yaml_serde::Value::Mapping(m) => FieldValue::Mapping(m.into_iter().map(|(k, x)| (tree_of_yaml(k), tree_of_yaml(x))).collect()),
        yaml_serde::Value::Tagged(t) => tree_of_yaml(t.value),
    }
}

/// Moves a `serde_json::Value` into the library's [`FieldValue`], variant by variant: a number that
/// the crate holds as an unsigned or a signed integer (`as_u64` or `as_i64` gives it) becomes
/// [`FieldValue::Int`], a float [`FieldValue::Number`] with the text that `serde_json` prints for it, and an object a mapping with string keys. Nothing is
/// stated of it; [`parse_json`] names the composite result.
#[verifier::external_body]
fn tree_of_json(v: serde_json::Value) -> FieldValue {
    match v {
        serde_json::Value::Null => FieldValue::Null,
        serde_json::Value::Bool(b) => FieldValue::Bool(b),
        serde_json::Value::Number(n) => n.as_u64().map(i128::from).or(n.as_i64().map(i128::from))
            .map_or_else(|| FieldValue::Number(n.to_string()), FieldValue::Int),
        serde_json::Value::String(s) => FieldValue::Text(s),
        serde_json::Value::Array(items) => FieldValue::Sequence(items.into_iter().map(tree_of_json).collect()),
        serde_json::Value::Object(m) => FieldValue::Mapping(m.into_iter().map(|(k, x)| (FieldValue::Text(k), tree_of_json(x))).collect()),
    }
}

/// `yaml_serde::from_str::<yaml_serde::Value>`: parses one YAML document, and on failure
/// gives the error's `Display` text. The contract names the tree (see [`yaml_document`]) and
/// the message (see [`yaml_error_text`]); what the parser accepts is not stated.
#[verifier::external_body]
pub(crate) fn parse_yaml(text: &str) -> (res: Result<FieldValue, String>)
    ensures
        match res {
            Ok(v) => yaml_document(text@) == Some(v),
            Err(m) => yaml_document(text@) is None && m@ == yaml_error_text(text@),
        },
{
    match yaml_serde::from_str::<yaml_serde::Value>(text) {
        Ok(v) => Ok(tree_of_yaml(v)),
        Err(e) => Err(e.to_string()),
    }
}

/// `yaml_serde::Deserializer::from_str`, each document read as a `yaml_serde::Value`: the
/// documents of a YAML stream, in order, or the `Display` text of the first error. The
/// contract names the trees (see [`yaml_documents`]) and the message (see
/// [`yaml_stream_error_text`]).
#[verifier::external_body]
pub(crate) fn parse_yaml_documents(text: &str) -> (res: Result<Vec<FieldValue>, String>)
    ensures
        match res {
            Ok(vs) => yaml_documents(text@) == Some(vs@),
            Err(m) => yaml_documents(text@) is None && m@ == yaml_stream_error_text(text@),
        },
{
    let docs: Result<Vec<FieldValue>, yaml_serde::Error> = yaml_serde::Deserializer::from_str(text)
        .map(|d| <yaml_serde::Value as serde::Deserialize>::deserialize(d).map(tree_of_yaml))
        .collect();
    match docs {
        Ok(vs) => Ok(vs),
        Err(e) => Err(e.to_string()),
    }
}

/// `serde_json::from_str::<serde_json::Value>`: parses one JSON value, and on failure gives
/// the error's `Display` text. The contract names the tree (see [`json_document`]) and the
/// message (see [`json_error_text`]); what the parser accepts is not stated.
#[verifier::external_body]
pub(crate) fn parse_json(text: &str) -> (res: Result<FieldValue, String>)
    ensures
        match res {
            Ok(v) => json_document(text@) == Some(v),
            Err(m) => json_document(text@) is None && m@ == json_error_text(text@),
        },
{
    match serde_json::from_str::<serde_json::Value>(text) {
        Ok(v) => Ok(tree_of_json(v)),
        Err(e) => Err(e.to_string()),
    }
}

} // verus!

verus! {

/// The character of the standard base64 alphabet (`A`–`Z`, `a`–`z`, `0`–`9`, `+`, `/`) for
/// the six-bit number `n`.
pub open spec fn b64_digit(n: int) -> char {
    if n < 26 {
        (65 + n) as char
    } else if n < 52 {
        (97 + n - 26) as char
    } else if n < 62 {
        (48 + n - 52) as char
    } else if n == 62 {
        '+'
    } else {
        '/'
    }
}

/// The standard base64 encoding of `b` (RFC 4648, with `=` padding): every three bytes
/// become four characters, and a last group of one or two bytes is padded with `=`.
pub open spec fn base64_of(b: Seq<u8>) -> Seq<char>
    decreases b.len(),
{
    if b.len() == 0 {
        Seq::empty()
    } else {
        let b0 = b[0] as int;
        let b1 = if b.len() > 1 { b[1] as int } else { 0 };
        let b2 = if b.len() > 2 { b[2] as int } else { 0 };
        let c0 = b64_digit(b0 / 4);
        let c1 = b64_digit((b0 % 4) * 16 + b1 / 16);
        let c2 = b64_digit((b1 % 16) * 4 + b2 / 64);
        let c3 = b64_digit(b2 % 64);
        if b.len() == 1 {
            seq![c0, c1, '=', '=']
        } else if b.len() == 2 {
            seq![c0, c1, c2, '=']
        } else {
            seq![c0, c1, c2, c3] + base64_of(b.skip(3))
        }
    }
}

/// `base64::Engine::encode` with `base64::engine::general_purpose::STANDARD`: the standard
/// alphabet with `=` padding, as [`base64_of`] states it. The crate panics when the length of
/// the output overflows `usize`; the `requires` keeps the input well below that.
#[verifier::external_body]
pub(crate) fn base64_encode(bytes: &[u8]) -> (res: String)
    requires
        bytes@.len() <= usize::MAX / 2,
    ensures
        res@ == base64_of(bytes@),
{
    base64::Engine::encode(&base64::engine::general_purpose::STANDARD, bytes)
}

} // verus!
