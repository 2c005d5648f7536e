//! The YAML values that documents are made of.
//!
//! Values and mappings are those of `serde_yaml`. To the contracts they are
//! opaque: a value is known by the name of what made it, a mapping by the
//! `Map` that `mapping_view` gives for it. Two values are equal in a
//! contract when `==` holds for them at run time, so a mapping that stores
//! the same values under the same keys in another order is the same
//! mapping, and a text written from a value is no function of it: it is
//! one of the texts that `written_texts` names.
//!
//! Nothing in this file is proved: every item states what `serde_yaml` or
//! `std` does.

use crate::string_map::{ascending, entries_map};
use serde_yaml::{Error, Mapping, Value};
use std::collections::BTreeMap;
use vstd::prelude::*;
use vstd::utf8::{encode_utf8, valid_utf8};

verus! {

/// `serde_yaml::Value`, a YAML value.
#[verifier::external_type_specification]
#[verifier::external_body]
pub struct ExValue(serde_yaml::Value);

/// `serde_yaml::Mapping`, a YAML mapping from values to values.
#[verifier::external_type_specification]
#[verifier::external_body]
pub struct ExMapping(serde_yaml::Mapping);

/// `serde_yaml::Error`, what reading or writing YAML fails with.
#[verifier::external_type_specification]
#[verifier::external_body]
pub struct ExError(serde_yaml::Error);

/// What a mapping holds: the value stored under each of its keys.
pub uninterp spec fn mapping_view(m: Mapping) -> Map<Value, Value>;

/// The value that `Value::String` makes of a string.
pub uninterp spec fn yaml_string(s: Seq<char>) -> Value;

/// The value that `Value::from` makes of an `i32`.
pub uninterp spec fn yaml_integer(n: i32) -> Value;

/// The value that `Value::Sequence` makes of a sequence of values.
pub uninterp spec fn yaml_sequence(items: Seq<Value>) -> Value;

/// The value that `Value::Mapping` makes of a mapping with these entries.
pub uninterp spec fn yaml_mapping(entries: Map<Value, Value>) -> Value;

/// What `Value::as_sequence` finds in a value: its items where it is a
/// sequence or a tagged sequence, nothing where it is neither.
pub uninterp spec fn sequence_of(v: Value) -> Option<Seq<Value>>;

/// What `Value::as_mapping` finds in a value: its entries where it is a
/// mapping or a tagged mapping, nothing where it is neither.
pub uninterp spec fn mapping_of(v: Value) -> Option<Map<Value, Value>>;

/// What `serde_yaml::from_str` reads from a text as a map with string
/// keys: its entries, or nothing where it fails.
pub uninterp spec fn parsed_entries(text: Seq<char>) -> Option<Seq<(Seq<char>, Value)>>;

/// The texts that `serde_yaml::to_string` writes for a map with string
/// keys that holds these entries. There may be more than one: the text
/// shows in which order the mappings inside the values hold their entries,
/// and which of two equal numbers a value holds, and the contracts do not
/// tell such values apart.
pub uninterp spec fn written_texts(entries: Map<Seq<char>, Value>) -> Set<Seq<char>>;

/// Whether `serde_yaml::to_string` writes a map with string keys that holds
/// these entries, or fails on it. It fails on what a value is made of (a
/// tag within a tag), which the contracts see, not on the order of entries
/// or on which of two equal numbers a value holds.
pub uninterp spec fn writable(entries: Map<Seq<char>, Value>) -> bool;

/// The map that results from storing each pair of `s` in turn.
pub open spec fn pairs_map(s: Seq<(Value, Value)>) -> Map<Value, Value>
    decreases s.len(),
{
    if s.len() == 0 {
        Map::empty()
    } else {
        pairs_map(s.drop_last()).insert(s.last().0, s.last().1)
    }
}

/// The entries `s` with each key as its text.
pub open spec fn entries_view(s: Seq<(String, Value)>) -> Seq<(Seq<char>, Value)> {
    Seq::new(s.len(), |i: int| (s[i].0@, s[i].1))
}

/// `Mapping::new` returns a mapping that holds nothing.
pub assume_specification[ serde_yaml::Mapping::new ]() -> (m: Mapping)
    ensures
        mapping_view(m) =~= Map::empty(),
;

/// `Mapping::insert` stores `v` under `k` in place of what was stored under
/// that key, leaves the other keys alone, and returns the value that it
/// replaced.
pub assume_specification[ serde_yaml::Mapping::insert ](m: &mut Mapping, k: Value, v: Value) -> (r:
    Option<Value>)
    ensures
        mapping_view(*final(m)) == mapping_view(*old(m)).insert(k, v),
        r == (if mapping_view(*old(m)).contains_key(k) {
            Some(mapping_view(*old(m))[k])
        } else {
            None
        }),
;

/// `Value::clone` returns the same value.
pub assume_specification[ <serde_yaml::Value as Clone>::clone ](v: &Value) -> (r: Value)
    ensures
        r == *v,
;

/// `Value::as_sequence` hands out the items of a sequence, tagged or not,
/// and nothing for any other value.
pub assume_specification<'a>[ serde_yaml::Value::as_sequence ](v: &'a Value) -> (r: Option<
    &'a serde_yaml::Sequence,
>)
    ensures
        match sequence_of(*v) {
            Some(items) => r is Some && r.unwrap()@ == items,
            None => r is None,
        },
;

/// `Value::as_mapping` hands out the mapping in a value that is one,
/// tagged or not, and nothing for any other value.
pub assume_specification<'a>[ serde_yaml::Value::as_mapping ](v: &'a Value) -> (r: Option<
    &'a Mapping,
>)
    ensures
        match mapping_of(*v) {
            Some(entries) => r is Some && mapping_view(*r.unwrap()) == entries,
            None => r is None,
        },
;

/// `Value::String`: the string value that holds `s`, and that of no other
/// text.
#[verifier::external_body]
pub(crate) fn string_value(s: String) -> (v: Value)
    ensures
        v == yaml_string(s@),
        forall|t: Seq<char>| yaml_string(t) == v ==> t == s@,
{
    Value::String(s)
}

/// `Value::from` on an `i32`: the number value that holds `n`.
#[verifier::external_body]
pub(crate) fn integer_value(n: i32) -> (v: Value)
    ensures
        v == yaml_integer(n),
{
    Value::from(n)
}

/// `Value::Sequence`: the sequence value that holds `items` in their order.
#[verifier::external_body]
pub(crate) fn sequence_value(items: Vec<Value>) -> (v: Value)
    ensures
        v == yaml_sequence(items@),
{
    Value::Sequence(items)
}

/// `Value::Mapping`: the mapping value that holds the entries of `m`.
#[verifier::external_body]
pub(crate) fn mapping_value(m: Mapping) -> (v: Value)
    ensures
        v == yaml_mapping(mapping_view(m)),
{
    Value::Mapping(m)
}

/// `Mapping::into_iter` on a clone of the mapping: the pairs that the
/// mapping holds. Storing them one after another gives the mapping again.
/// The order in which they come is left open.
#[verifier::external_body]
pub(crate) fn mapping_pairs(m: &Mapping) -> (r: Vec<(Value, Value)>)
    ensures
        pairs_map(r@) == mapping_view(*m),
{
    m.clone().into_iter().collect()
}

/// `String::from_utf8`: the string whose bytes these are, where they are
/// valid UTF-8, and nothing where they are not.
#[verifier::external_body]
pub(crate) fn decode_text(bytes: Vec<u8>) -> (r: Option<String>)
    ensures
        r is Some <==> valid_utf8(bytes@),
        r is Some ==> encode_utf8(r.unwrap()@) == bytes@,
{
    match String::from_utf8(bytes) {
        Ok(text) => Some(text),
        Err(_) => None,
    }
}

/// `serde_yaml::from_str`, reading a map with string keys: the entries that
/// it read, or its error.
#[verifier::external_body]
pub(crate) fn parse_entries(text: &str) -> (r: Result<Vec<(String, Value)>, Error>)
    ensures
        match parsed_entries(text@) {
            Some(entries) => r is Ok && entries_view(r.unwrap()@) == entries,
            None => r is Err,
        },
{
    match serde_yaml::from_str::<BTreeMap<String, Value>>(text) {
        Ok(map) => Ok(map.into_iter().collect()),
        Err(error) => Err(error),
    }
}

/// `serde_yaml::to_string`, writing a map with string keys: the YAML text
/// of the entries, or its error. The entries ascend by key, so the map
/// that is written holds them as they stand. Whether a text comes back
/// depends on the entries alone, and the text is one of those that the
/// writer gives for them.
#[verifier::external_body]
pub(crate) fn render_entries(entries: Vec<(String, Value)>) -> (r: Result<String, Error>)
    requires
        ascending(entries@),
    ensures
        r is Ok <==> writable(entries_map(entries@)),
        r matches Ok(text) ==> written_texts(entries_map(entries@)).contains(text@),
{
    serde_yaml::to_string(&entries.into_iter().collect::<BTreeMap<String, Value>>())
}

} // verus!
