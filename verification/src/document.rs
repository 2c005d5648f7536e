//! The configuration document: what is merged.
//!
//! A document holds an ordered list of proxies, an ordered list of rules, a
//! mapping of named rule providers, and every other top-level setting under
//! its key. In YAML the three structured fields stand under the keys
//! `proxies`, `rules` and `rule-providers`.

use crate::string_map::StringMap;
use crate::values::{clone_entries, clone_mapping, clone_values, entry_list};
use crate::yaml::{
    decode_text, entries_view, mapping_of, mapping_value, mapping_view, parse_entries,
    parsed_entries, render_entries, sequence_of, sequence_value, writable, written_texts,
    yaml_mapping, yaml_sequence,
};
use serde_yaml::{Error, Mapping, Value};
use vstd::prelude::*;
use vstd::utf8::{decode_utf8, encode_utf8_decode_utf8, valid_utf8};

verus! {

/// Why bytes or a text are no document.
#[derive(Debug, PartialEq, Eq, Clone, Copy)]
pub enum ParseError {
    /// The bytes are no UTF-8 text.
    Encoding,
    /// The text is no YAML map with string keys.
    Syntax,
    /// What stands under `proxies` is no sequence.
    Proxies,
    /// What stands under `rules` is no sequence.
    Rules,
    /// What stands under `rule-providers` is no mapping.
    RuleProviders,
}

/// A document as the contracts see it.
#[verifier::ext_equal]
pub struct DocumentView {
    pub settings: Map<Seq<char>, Value>,
    pub proxies: Seq<Value>,
    pub rules: Seq<Value>,
    pub rule_providers: Map<Value, Value>,
}

/// A configuration document.
#[derive(Debug)]
pub struct Document {
    /// The top-level settings other than the three fields below.
    pub settings: StringMap<Value>,
    /// The proxies, in their order.
    pub proxies: Vec<Value>,
    /// The rules, in their order: the first that matches decides.
    pub rules: Vec<Value>,
    /// The rule providers, each under its name.
    pub rule_providers: Mapping,
}

impl View for Document {
    type V = DocumentView;

    open spec fn view(&self) -> DocumentView {
        DocumentView {
            settings: self.settings@,
            proxies: self.proxies@,
            rules: self.rules@,
            rule_providers: mapping_view(self.rule_providers),
        }
    }
}

impl Clone for Document {
    /// A document with the same settings, proxies, rules and rule providers.
    fn clone(&self) -> (r: Document)
        ensures
            r@ == self@,
    {
        Document {
            settings: clone_entries(&self.settings),
            proxies: clone_values(&self.proxies),
            rules: clone_values(&self.rules),
            rule_providers: clone_mapping(&self.rule_providers),
        }
    }
}

impl Default for Document {
    /// The document that holds nothing.
    fn default() -> (r: Document)
        ensures
            r@ == empty_document(),
    {
        Document::new()
    }
}

/// The key under which the proxies stand.
pub open spec fn proxies_key() -> Seq<char> {
    "proxies"@
}

/// The key under which the rules stand.
pub open spec fn rules_key() -> Seq<char> {
    "rules"@
}

/// The key under which the rule providers stand.
pub open spec fn rule_providers_key() -> Seq<char> {
    "rule-providers"@
}

/// The three keys differ from each other.
pub proof fn lemma_field_keys_differ()
    ensures
        proxies_key() != rules_key(),
        proxies_key() != rule_providers_key(),
        rules_key() != rule_providers_key(),
{
    reveal_strlit("proxies");
    reveal_strlit("rules");
    reveal_strlit("rule-providers");
    assert(proxies_key().len() == 7);
    assert(rules_key().len() == 5);
    assert(rule_providers_key().len() == 14);
}

/// The document that holds nothing.
pub open spec fn empty_document() -> DocumentView {
    DocumentView {
        settings: Map::empty(),
        proxies: Seq::empty(),
        rules: Seq::empty(),
        rule_providers: Map::empty(),
    }
}

/// The map that results from storing each entry of `s` in turn.
pub open spec fn entries_to_map(s: Seq<(Seq<char>, Value)>) -> Map<Seq<char>, Value>
    decreases s.len(),
{
    if s.len() == 0 {
        Map::empty()
    } else {
        entries_to_map(s.drop_last()).insert(s.last().0, s.last().1)
    }
}

/// The document that a top-level map stands for, or why it stands for
/// none. A field that the map lacks is empty. The fields are looked at in
/// the order `proxies`, `rules`, `rule-providers`, and the first of a wrong
/// kind gives the error.
pub open spec fn document_of(top: Map<Seq<char>, Value>) -> Result<DocumentView, ParseError> {
    if top.contains_key(proxies_key()) && sequence_of(top[proxies_key()]) is None {
        Err(ParseError::Proxies)
    } else if top.contains_key(rules_key()) && sequence_of(top[rules_key()]) is None {
        Err(ParseError::Rules)
    } else if top.contains_key(rule_providers_key()) && mapping_of(top[rule_providers_key()])
        is None {
        Err(ParseError::RuleProviders)
    } else {
        Ok(
            DocumentView {
                settings: top.remove(proxies_key()).remove(rules_key()).remove(
                    rule_providers_key(),
                ),
                proxies: if top.contains_key(proxies_key()) {
                    sequence_of(top[proxies_key()]).unwrap()
                } else {
                    Seq::empty()
                },
                rules: if top.contains_key(rules_key()) {
                    sequence_of(top[rules_key()]).unwrap()
                } else {
                    Seq::empty()
                },
                rule_providers: if top.contains_key(rule_providers_key()) {
                    mapping_of(top[rule_providers_key()]).unwrap()
                } else {
                    Map::empty()
                },
            },
        )
    }
}

/// The top-level map that a document is written as: its settings, and over
/// them the three fields under their keys.
pub open spec fn top_level(d: DocumentView) -> Map<Seq<char>, Value> {
    d.settings.insert(proxies_key(), yaml_sequence(d.proxies)).insert(
        rules_key(),
        yaml_sequence(d.rules),
    ).insert(rule_providers_key(), yaml_mapping(d.rule_providers))
}

/// What a text is as a document: the document of the entries that were
/// read from it.
pub open spec fn document_of_text(text: Seq<char>) -> Result<DocumentView, ParseError> {
    match parsed_entries(text) {
        Some(entries) => document_of(entries_to_map(entries)),
        None => Err(ParseError::Syntax),
    }
}

/// What bytes are as a document: the document of the text that they
/// encode.
pub open spec fn document_of_bytes(bytes: Seq<u8>) -> Result<DocumentView, ParseError> {
    if valid_utf8(bytes) {
        document_of_text(decode_utf8(bytes))
    } else {
        Err(ParseError::Encoding)
    }
}

/// Storing the first `i + 1` entries is storing the first `i` and then the
/// entry at `i`.
proof fn lemma_entries_to_map_step(s: Seq<(Seq<char>, Value)>, i: int)
    requires
        0 <= i < s.len(),
    ensures
        entries_to_map(s.take(i + 1)) == entries_to_map(s.take(i)).insert(s[i].0, s[i].1),
{
    assert(s.take(i + 1).drop_last() =~= s.take(i));
}

/// The text that was written, if writing succeeded.
pub fn written_text(written: Result<String, Error>) -> (r: Option<String>)
    ensures
        r == (match written {
            Ok(text) => Some(text),
            Err(_) => None,
        }),
{
    match written {
        Ok(text) => Some(text),
        Err(_) => None,
    }
}

impl Document {
    /// A document that holds nothing.
    pub fn new() -> (r: Document)
        ensures
            r@ == empty_document(),
    {
        Document {
            settings: StringMap::new(),
            proxies: Vec::new(),
            rules: Vec::new(),
            rule_providers: Mapping::new(),
        }
    }

    /// The document that top-level entries stand for. Of two entries with
    /// one key the later counts.
    pub fn from_entries(entries: Vec<(String, Value)>) -> (r: Result<Document, ParseError>)
        ensures
            match document_of(entries_to_map(entries_view(entries@))) {
                Ok(d) => r is Ok && r.unwrap()@ == d,
                Err(e) => r matches Err(x) && x == e,
            },
    {
        let ghost all = entries_view(entries@);
        let mut top: StringMap<Value> = StringMap::new();
        let mut i: usize = 0;
        while i < entries.len()
            invariant
                i <= entries@.len(),
                all == entries_view(entries@),
                top@ == entries_to_map(all.take(i as int)),
            decreases entries@.len() - i,
        {
            proof {
                lemma_entries_to_map_step(all, i as int);
            }
            top.insert(entries[i].0.clone(), entries[i].1.clone());
            i += 1;
        }
        assert(all.take(all.len() as int) =~= all);
        let ghost whole = top@;
        proof {
            lemma_field_keys_differ();
        }
        let proxies = match top.remove("proxies") {
            Some(v) => match v.as_sequence() {
                Some(items) => clone_values(items),
                None => {
                    return Err(ParseError::Proxies);
                },
            },
            None => Vec::new(),
        };
        let rules = match top.remove("rules") {
            Some(v) => match v.as_sequence() {
                Some(items) => clone_values(items),
                None => {
                    return Err(ParseError::Rules);
                },
            },
            None => Vec::new(),
        };
        let rule_providers = match top.remove("rule-providers") {
            Some(v) => match v.as_mapping() {
                Some(m) => clone_mapping(m),
                None => {
                    return Err(ParseError::RuleProviders);
                },
            },
            None => Mapping::new(),
        };
        let document = Document { settings: top, proxies, rules, rule_providers };
        assert(document@ =~= document_of(whole).unwrap());
        Ok(document)
    }

    /// Reads a document from YAML text.
    pub fn parse(text: &str) -> (r: Result<Document, ParseError>)
        ensures
            match document_of_text(text@) {
                Ok(d) => r is Ok && r.unwrap()@ == d,
                Err(e) => r matches Err(x) && x == e,
            },
    {
        match parse_entries(text) {
            Ok(entries) => Document::from_entries(entries),
            Err(_) => Err(ParseError::Syntax),
        }
    }

    /// Reads a document from the bytes of YAML text.
    pub fn from_bytes(bytes: Vec<u8>) -> (r: Result<Document, ParseError>)
        ensures
            match document_of_bytes(bytes@) {
                Ok(d) => r is Ok && r.unwrap()@ == d,
                Err(e) => r matches Err(x) && x == e,
            },
    {
        match decode_text(bytes) {
            Some(text) => {
                proof {
                    encode_utf8_decode_utf8(text@);
                }
                Document::parse(text.as_str())
            },
            None => Err(ParseError::Encoding),
        }
    }

    /// The top-level entries that the document is written as.
    pub fn entries(&self) -> (r: StringMap<Value>)
        ensures
            r@ == top_level(self@),
    {
        let mut top = clone_entries(&self.settings);
        top.insert("proxies".to_owned(), sequence_value(clone_values(&self.proxies)));
        top.insert("rules".to_owned(), sequence_value(clone_values(&self.rules)));
        top.insert("rule-providers".to_owned(), mapping_value(clone_mapping(&self.rule_providers)));
        top
    }

    /// Writes the document as YAML text: a map of its top-level entries,
    /// in ascending key order. Returns nothing where the writer fails.
    pub fn render(&self) -> (r: Option<String>)
        ensures
            r is Some <==> writable(top_level(self@)),
            r matches Some(text) ==> written_texts(top_level(self@)).contains(text@),
    {
        let top = self.entries();
        written_text(render_entries(entry_list(&top)))
    }
}

} // verus!
