//! The types of the outside crates that pass through the library's signatures.
use vstd::prelude::*;

verus! {

/// `yaml_serde::Value`, the YAML parser's tree.
#[verifier::external_type_specification]
#[verifier::external_body]
pub struct ExYamlValue(yaml_serde::Value);

/// `serde_json::Value`, the JSON parser's tree.
#[verifier::external_type_specification]
#[verifier::external_body]
pub struct ExJsonValue(serde_json::Value);

} // verus!
