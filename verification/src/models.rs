//! The records of the service: registered subscriptions, and the local
//! manifest with its proxies and rule providers.

use crate::document::{empty_document, Document, DocumentView};
use crate::string_map::StringMap;
use crate::yaml::{
    integer_value, mapping_value, mapping_view, string_value, yaml_integer, yaml_mapping,
    yaml_string,
};
use serde_yaml::{Mapping, Value};
use vstd::prelude::*;

verus! {

/// A registered subscription: a name for the address of a remote document.
#[derive(Debug, Clone, PartialEq)]
pub struct Config {
    pub id: i32,
    pub name: String,
    pub url: String,
}

/// A subscription that is to be registered and has no id yet.
#[derive(Debug, Clone, Copy)]
pub struct NewConfig<'a> {
    pub name: &'a String,
    pub url: &'a String,
}

/// The local configuration: where to listen, the token that callers must
/// present, and the proxies, rules and rule providers that are put before
/// those of a subscription.
#[derive(Debug, Clone, PartialEq)]
pub struct Manifest {
    pub port: i32,
    pub token: String,
    pub proxies: Vec<Proxy>,
    pub rules: Vec<String>,
    pub rule_providers: StringMap<RuleProvider>,
}

/// A proxy of the local manifest.
#[derive(Debug, Clone, PartialEq)]
pub struct Proxy {
    pub name: String,
    pub protocol: String,
    pub username: String,
    pub password: String,
    pub server: String,
    pub port: i32,
}

/// A rule provider of the local manifest.
#[derive(Debug, Clone, PartialEq)]
pub struct RuleProvider {
    pub protocol: String,
    pub behavior: String,
    pub url: String,
    pub path: String,
    pub interval: i32,
}

impl Config {
    /// What is stored when this subscription is registered: its name and
    /// its address.
    pub fn to_new(&self) -> (r: NewConfig<'_>)
        ensures
            *r.name == self.name,
            *r.url == self.url,
    {
        NewConfig { name: &self.name, url: &self.url }
    }

    /// This subscription under the id that the store gave it.
    pub fn with_id(self, id: i32) -> (r: Config)
        ensures
            r.id == id,
            r.name == self.name,
            r.url == self.url,
    {
        Config { id, name: self.name, url: self.url }
    }
}

/// The first of the subscriptions that a lookup by name found, if it found
/// any.
pub fn first_config(found: &Vec<Config>) -> (r: Option<&Config>)
    ensures
        r == (if found@.len() > 0 {
            Some(&found@[0])
        } else {
            None
        }),
{
    if found.len() > 0 {
        Some(&found[0])
    } else {
        None
    }
}

/// The keys of a proxy's mapping differ from each other.
pub proof fn lemma_proxy_keys_differ()
    ensures
        "name"@ != "type"@,
        "name"@ != "username"@,
        "name"@ != "password"@,
        "name"@ != "server"@,
        "name"@ != "port"@,
        "type"@ != "username"@,
        "type"@ != "password"@,
        "type"@ != "server"@,
        "type"@ != "port"@,
        "username"@ != "password"@,
        "username"@ != "server"@,
        "username"@ != "port"@,
        "password"@ != "server"@,
        "password"@ != "port"@,
        "server"@ != "port"@,
{
    reveal_strlit("name");
    reveal_strlit("type");
    reveal_strlit("username");
    reveal_strlit("password");
    reveal_strlit("server");
    reveal_strlit("port");
    assert("name"@[0] == 'n' && "type"@[0] == 't' && "port"@[0] == 'p');
    assert("username"@[0] == 'u' && "password"@[0] == 'p');
    assert("name"@.len() == 4 && "type"@.len() == 4 && "port"@.len() == 4);
    assert("username"@.len() == 8 && "password"@.len() == 8 && "server"@.len() == 6);
}

/// The keys of a rule provider's mapping differ from each other.
pub proof fn lemma_rule_provider_keys_differ()
    ensures
        "type"@ != "behavior"@,
        "type"@ != "url"@,
        "type"@ != "path"@,
        "type"@ != "interval"@,
        "behavior"@ != "url"@,
        "behavior"@ != "path"@,
        "behavior"@ != "interval"@,
        "url"@ != "path"@,
        "url"@ != "interval"@,
        "path"@ != "interval"@,
{
    reveal_strlit("type");
    reveal_strlit("behavior");
    reveal_strlit("url");
    reveal_strlit("path");
    reveal_strlit("interval");
    assert("type"@[0] == 't' && "path"@[0] == 'p');
    assert("behavior"@[0] == 'b' && "interval"@[0] == 'i');
    assert("type"@.len() == 4 && "path"@.len() == 4 && "url"@.len() == 3);
    assert("behavior"@.len() == 8 && "interval"@.len() == 8);
}

impl Proxy {
    /// The entries of the YAML mapping that this proxy is written as.
    pub open spec fn fields(&self) -> Map<Value, Value> {
        Map::<Value, Value>::empty().insert(yaml_string("name"@), yaml_string(self.name@)).insert(
            yaml_string("type"@),
            yaml_string(self.protocol@),
        ).insert(yaml_string("username"@), yaml_string(self.username@)).insert(
            yaml_string("password"@),
            yaml_string(self.password@),
        ).insert(yaml_string("server"@), yaml_string(self.server@)).insert(
            yaml_string("port"@),
            yaml_integer(self.port),
        )
    }

    /// The YAML mapping that this proxy is written as: six entries, each
    /// field under its key.
    pub fn to_map(&self) -> (map: Mapping)
        ensures
            mapping_view(map) == self.fields(),
            mapping_view(map).dom().finite(),
            mapping_view(map).len() == 6,
            mapping_view(map)[yaml_string("name"@)] == yaml_string(self.name@),
            mapping_view(map)[yaml_string("type"@)] == yaml_string(self.protocol@),
            mapping_view(map)[yaml_string("username"@)] == yaml_string(self.username@),
            mapping_view(map)[yaml_string("password"@)] == yaml_string(self.password@),
            mapping_view(map)[yaml_string("server"@)] == yaml_string(self.server@),
            mapping_view(map)[yaml_string("port"@)] == yaml_integer(self.port),
    {
        proof {
            lemma_proxy_keys_differ();
        }
        let mut map = Mapping::new();
        map.insert(string_value("name".to_string()), string_value(self.name.clone()));
        map.insert(string_value("type".to_string()), string_value(self.protocol.clone()));
        map.insert(string_value("username".to_string()), string_value(self.username.clone()));
        map.insert(string_value("password".to_string()), string_value(self.password.clone()));
        map.insert(string_value("server".to_string()), string_value(self.server.clone()));
        map.insert(string_value("port".to_string()), integer_value(self.port));
        map
    }
}

impl RuleProvider {
    /// The entries of the YAML mapping that this rule provider is written
    /// as.
    pub open spec fn fields(&self) -> Map<Value, Value> {
        Map::<Value, Value>::empty().insert(yaml_string("type"@), yaml_string(self.protocol@)).insert(
            yaml_string("behavior"@),
            yaml_string(self.behavior@),
        ).insert(yaml_string("url"@), yaml_string(self.url@)).insert(
            yaml_string("path"@),
            yaml_string(self.path@),
        ).insert(yaml_string("interval"@), yaml_integer(self.interval))
    }

    /// The YAML mapping that this rule provider is written as: five
    /// entries, each field under its key.
    pub fn to_map(&self) -> (map: Mapping)
        ensures
            mapping_view(map) == self.fields(),
            mapping_view(map).dom().finite(),
            mapping_view(map).len() == 5,
            mapping_view(map)[yaml_string("type"@)] == yaml_string(self.protocol@),
            mapping_view(map)[yaml_string("behavior"@)] == yaml_string(self.behavior@),
            mapping_view(map)[yaml_string("url"@)] == yaml_string(self.url@),
            mapping_view(map)[yaml_string("path"@)] == yaml_string(self.path@),
            mapping_view(map)[yaml_string("interval"@)] == yaml_integer(self.interval),
    {
        proof {
            lemma_rule_provider_keys_differ();
        }
        let mut map = Mapping::new();
        map.insert(string_value("type".to_string()), string_value(self.protocol.clone()));
        map.insert(string_value("behavior".to_string()), string_value(self.behavior.clone()));
        map.insert(string_value("url".to_string()), string_value(self.url.clone()));
        map.insert(string_value("path".to_string()), string_value(self.path.clone()));
        map.insert(string_value("interval".to_string()), integer_value(self.interval));
        map
    }
}

/// The proxies as YAML values, in their order.
pub open spec fn proxy_values(proxies: Seq<Proxy>) -> Seq<Value> {
    Seq::new(proxies.len(), |i: int| yaml_mapping(proxies[i].fields()))
}

/// The rules as YAML values, in their order.
pub open spec fn rule_values(rules: Seq<String>) -> Seq<Value> {
    Seq::new(rules.len(), |i: int| yaml_string(rules[i]@))
}

/// The first `n` of the named rule providers as a YAML mapping, each under
/// its name.
pub open spec fn provider_values(
    names: Seq<Seq<char>>,
    providers: Map<Seq<char>, RuleProvider>,
    n: int,
) -> Map<Value, Value>
    decreases n,
{
    if n <= 0 {
        Map::empty()
    } else {
        provider_values(names, providers, n - 1).insert(
            yaml_string(names[n - 1]),
            yaml_mapping(providers[names[n - 1]].fields()),
        )
    }
}

impl Manifest {
    /// The manifest as a document: its proxies, rules and rule providers
    /// as YAML values, and no settings.
    pub open spec fn document_view(&self) -> DocumentView {
        DocumentView {
            settings: Map::empty(),
            proxies: proxy_values(self.proxies@),
            rules: rule_values(self.rules@),
            rule_providers: provider_values(
                self.rule_providers.keys(),
                self.rule_providers@,
                self.rule_providers.keys().len() as int,
            ),
        }
    }

    /// The manifest as a document.
    pub fn document(&self) -> (r: Document)
        ensures
            r@ == self.document_view(),
    {
        let mut out = Document::new();
        let mut i: usize = 0;
        while i < self.proxies.len()
            invariant
                i <= self.proxies@.len(),
                out@.settings == Map::<Seq<char>, Value>::empty(),
                out@.rules == Seq::<Value>::empty(),
                out@.rule_providers == Map::<Value, Value>::empty(),
                out@.proxies == proxy_values(self.proxies@).take(i as int),
            decreases self.proxies@.len() - i,
        {
            out.proxies.push(mapping_value(self.proxies[i].to_map()));
            i += 1;
        }
        assert(proxy_values(self.proxies@).take(self.proxies@.len() as int) =~= proxy_values(
            self.proxies@,
        ));
        let mut j: usize = 0;
        while j < self.rules.len()
            invariant
                j <= self.rules@.len(),
                out@.settings == Map::<Seq<char>, Value>::empty(),
                out@.proxies == proxy_values(self.proxies@),
                out@.rule_providers == Map::<Value, Value>::empty(),
                out@.rules == rule_values(self.rules@).take(j as int),
            decreases self.rules@.len() - j,
        {
            out.rules.push(string_value(self.rules[j].clone()));
            j += 1;
        }
        assert(rule_values(self.rules@).take(self.rules@.len() as int) =~= rule_values(
            self.rules@,
        ));
        let n = self.rule_providers.len();
        let mut k: usize = 0;
        while k < n
            invariant
                k <= n,
                n == self.rule_providers.keys().len(),
                out@.settings == Map::<Seq<char>, Value>::empty(),
                out@.proxies == proxy_values(self.proxies@),
                out@.rules == rule_values(self.rules@),
                out@.rule_providers == provider_values(
                    self.rule_providers.keys(),
                    self.rule_providers@,
                    k as int,
                ),
            decreases n - k,
        {
            match self.rule_providers.entry(k) {
                Some((name, provider)) => {
                    out.rule_providers.insert(
                        string_value(name.clone()),
                        mapping_value(provider.to_map()),
                    );
                },
                None => {},
            }
            k += 1;
        }
        out
    }
}

impl Default for Proxy {
    fn default() -> (r: Proxy)
        ensures
            r.name@.len() == 0,
            r.protocol@.len() == 0,
            r.username@.len() == 0,
            r.password@.len() == 0,
            r.server@.len() == 0,
            r.port == 0,
    {
        Proxy {
            name: String::new(),
            protocol: String::new(),
            username: String::new(),
            password: String::new(),
            server: String::new(),
            port: 0,
        }
    }
}

impl Default for RuleProvider {
    fn default() -> (r: RuleProvider)
        ensures
            r.protocol@.len() == 0,
            r.behavior@.len() == 0,
            r.url@.len() == 0,
            r.path@.len() == 0,
            r.interval == 0,
    {
        RuleProvider {
            protocol: String::new(),
            behavior: String::new(),
            url: String::new(),
            path: String::new(),
            interval: 0,
        }
    }
}

impl Default for Manifest {
    fn default() -> (r: Manifest)
        ensures
            r.port == 0,
            r.token@.len() == 0,
            r.proxies@.len() == 0,
            r.rules@.len() == 0,
            r.rule_providers@ =~= Map::empty(),
            r.document_view() == empty_document(),
    {
        let r = Manifest {
            port: 0,
            token: String::new(),
            proxies: Vec::new(),
            rules: Vec::new(),
            rule_providers: StringMap::new(),
        };
        r
    }
}

} // verus!
