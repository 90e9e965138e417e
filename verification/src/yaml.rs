//! What the library has from the YAML decoder `serde_yml`: the decoded values
//! are carried through, and looked into only by the decoder itself.

use std::collections::HashMap;
use vstd::prelude::*;

verus! {

/// A decoded YAML value, `serde_yml::Value`. Nothing is known of what is
/// inside one.
#[verifier::external_type_specification]
#[verifier::external_body]
pub struct ExYamlValue(serde_yml::Value);

/// The error of the decoder, `serde_yml::Error`. Nothing is known of what is
/// inside one.
#[verifier::external_type_specification]
#[verifier::external_body]
pub struct ExYamlError(serde_yml::Error);

/// The map from key to value that `text` decodes to, where it is a YAML
/// document that decodes to a map with text keys: what `serde_yml::from_str`
/// makes of the text when asked for such a map, and nothing where it makes
/// none of it.
pub uninterp spec fn decoded_mapping(text: Seq<char>) -> Option<Map<String, serde_yml::Value>>;

/// Decodes a metadata block with `serde_yml::from_str`, to a map from key to
/// value.
///
/// Believed, not proved: what comes back depends on the text alone. It is
/// the map that `decoded_mapping` names, and an error where that names none.
/// Nothing is claimed of the error.
#[verifier::external_body]
pub(crate) fn decode_mapping(text: &str) -> (r: Result<
    HashMap<String, serde_yml::Value>,
    serde_yml::Error,
>)
    ensures
        match r {
            Ok(map) => decoded_mapping(text@) == Some(map@),
            Err(_) => decoded_mapping(text@) is None,
        },
{
    serde_yml::from_str(text)
}

/// Decodes a metadata block to a map from key to value: the decoder of
/// notes whose metadata has no type of its own.
pub fn default_properties(block: &str) -> (r: Result<
    HashMap<String, serde_yml::Value>,
    serde_yml::Error,
>)
    ensures
        match r {
            Ok(map) => decoded_mapping(block@) == Some(map@),
            Err(_) => decoded_mapping(block@) is None,
        },
{
    decode_mapping(block)
}

/// The texts that a decoded value holds, where it is a list of texts: what
/// `serde_yml::from_value` makes of the value when asked for a list of
/// texts, and nothing where it makes none of it.
pub uninterp spec fn value_strings(value: serde_yml::Value) -> Option<Seq<Seq<char>>>;

/// Decodes a value as a list of texts with `serde_yml::from_value`.
///
/// Believed, not proved: what comes back depends on the value alone. It is
/// the list that `value_strings` names, and an error where that names none.
/// Nothing is claimed of the error.
#[verifier::external_body]
pub(crate) fn decode_strings(value: &serde_yml::Value) -> (r: Result<Vec<String>, serde_yml::Error>)
    ensures
        match r {
            Ok(list) => value_strings(*value) == Some(list@.map_values(|s: String| s@)),
            Err(_) => value_strings(*value) is None,
        },
{
    serde_yml::from_value(value.clone())
}

} // verus!
