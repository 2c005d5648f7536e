use clash_config_proxy::document::{written_text, Document, ParseError};
use serde_yaml::value::{Tag, TaggedValue};
use serde_yaml::{Mapping, Value};

fn text(s: &str) -> Value {
    Value::String(s.to_string())
}

fn pair(key: &str, value: Value) -> (String, Value) {
    (key.to_string(), value)
}

fn keys_of(document: &Document) -> Vec<String> {
    let mut keys = Vec::new();
    let mut i = 0;
    while let Some((key, _)) = document.settings.entry(i) {
        keys.push(key.clone());
        i += 1;
    }
    keys
}

#[test]
fn new_document_is_empty() {
    let document = Document::new();
    assert_eq!(document.settings.len(), 0);
    assert!(document.proxies.is_empty());
    assert!(document.rules.is_empty());
    assert!(document.rule_providers.is_empty());
}

#[test]
fn parse_reads_the_fields_and_the_settings() {
    let document = Document::parse(
        "mode: rule\n\
         port: 7890\n\
         proxies:\n\
         - name: a\n\
         \x20 type: http\n\
         - name: b\n\
         \x20 type: socks5\n\
         rules:\n\
         - DOMAIN,example.com,a\n\
         - MATCH,b\n\
         rule-providers:\n\
         \x20 ads:\n\
         \x20   type: http\n\
         \x20   interval: 600\n",
    )
    .unwrap();

    assert_eq!(keys_of(&document), vec!["mode", "port"]);
    assert_eq!(document.settings.get("mode"), Some(&text("rule")));
    assert_eq!(document.settings.get("port"), Some(&Value::from(7890)));

    let mut a = Mapping::new();
    a.insert(text("name"), text("a"));
    a.insert(text("type"), text("http"));
    let mut b = Mapping::new();
    b.insert(text("name"), text("b"));
    b.insert(text("type"), text("socks5"));
    assert_eq!(document.proxies, vec![Value::Mapping(a), Value::Mapping(b)]);

    assert_eq!(
        document.rules,
        vec![text("DOMAIN,example.com,a"), text("MATCH,b")]
    );

    let mut ads = Mapping::new();
    ads.insert(text("type"), text("http"));
    ads.insert(text("interval"), Value::from(600));
    let mut providers = Mapping::new();
    providers.insert(text("ads"), Value::Mapping(ads));
    assert_eq!(document.rule_providers, providers);
}

#[test]
fn parse_takes_a_missing_field_as_empty() {
    let document = Document::parse("mode: rule\n").unwrap();
    assert_eq!(keys_of(&document), vec!["mode"]);
    assert!(document.proxies.is_empty());
    assert!(document.rules.is_empty());
    assert!(document.rule_providers.is_empty());
}

#[test]
fn parse_takes_an_empty_map_as_the_empty_document() {
    let document = Document::parse("{}").unwrap();
    assert_eq!(document.settings.len(), 0);
    assert!(document.proxies.is_empty());
    assert!(document.rules.is_empty());
    assert!(document.rule_providers.is_empty());
}

#[test]
fn parse_refuses_text_that_is_no_map() {
    assert_eq!(
        Document::parse("- a\n- b\n").unwrap_err(),
        ParseError::Syntax
    );
    assert_eq!(Document::parse("a: [1, 2").unwrap_err(), ParseError::Syntax);
    assert_eq!(Document::parse("just text").unwrap_err(), ParseError::Syntax);
}

#[test]
fn parse_refuses_proxies_that_are_no_sequence() {
    assert_eq!(
        Document::parse("proxies: none\nrules: 3\n").unwrap_err(),
        ParseError::Proxies
    );
    assert_eq!(
        Document::parse("proxies:\n  a: b\n").unwrap_err(),
        ParseError::Proxies
    );
}

#[test]
fn parse_refuses_rules_that_are_no_sequence() {
    assert_eq!(
        Document::parse("proxies: []\nrules: MATCH\nrule-providers: 1\n").unwrap_err(),
        ParseError::Rules
    );
}

#[test]
fn parse_refuses_rule_providers_that_are_no_mapping() {
    assert_eq!(
        Document::parse("proxies: []\nrules: []\nrule-providers:\n- a\n").unwrap_err(),
        ParseError::RuleProviders
    );
    assert_eq!(
        Document::parse("rule-providers: text\n").unwrap_err(),
        ParseError::RuleProviders
    );
}

#[test]
fn from_bytes_reads_utf8_text() {
    let document = Document::from_bytes("名前: 値\nrules:\n- R1\n".as_bytes().to_vec()).unwrap();
    assert_eq!(document.settings.get("名前"), Some(&text("値")));
    assert_eq!(document.rules, vec![text("R1")]);
    assert_eq!(
        Document::from_bytes(b"[]".to_vec()).unwrap_err(),
        ParseError::Syntax
    );
    assert_eq!(
        Document::from_bytes(b"proxies: {}".to_vec()).unwrap_err(),
        ParseError::Proxies
    );
}

#[test]
fn from_bytes_refuses_bytes_that_are_no_utf8() {
    for bytes in [
        vec![0xff],
        vec![0x61, 0x3a, 0x20, 0xc3],
        vec![0xc0, 0xaf],
        vec![0xed, 0xa0, 0x80],
        vec![0xf4, 0x90, 0x80, 0x80],
    ] {
        assert_eq!(
            Document::from_bytes(bytes).unwrap_err(),
            ParseError::Encoding
        );
    }
}

#[test]
fn from_entries_lets_the_later_of_two_entries_count() {
    let document = Document::from_entries(vec![
        pair("mode", text("rule")),
        pair("rules", Value::Sequence(vec![text("R1")])),
        pair("mode", text("global")),
        pair("rules", Value::Sequence(vec![text("R2"), text("R3")])),
    ])
    .unwrap();
    assert_eq!(document.settings.get("mode"), Some(&text("global")));
    assert_eq!(document.settings.len(), 1);
    assert_eq!(document.rules, vec![text("R2"), text("R3")]);
}

#[test]
fn from_entries_keeps_the_fields_out_of_the_settings() {
    let document = Document::from_entries(vec![
        pair("proxies", Value::Sequence(vec![text("p")])),
        pair("rules", Value::Sequence(vec![])),
        pair("rule-providers", Value::Mapping(Mapping::new())),
        pair("dns", Value::Bool(true)),
    ])
    .unwrap();
    assert_eq!(keys_of(&document), vec!["dns"]);
    assert_eq!(document.proxies, vec![text("p")]);
}

#[test]
fn from_entries_reports_the_first_field_of_a_wrong_kind() {
    let wrong = Document::from_entries(vec![
        pair("rule-providers", Value::Null),
        pair("rules", Value::Null),
        pair("proxies", Value::Null),
    ]);
    assert_eq!(wrong.unwrap_err(), ParseError::Proxies);
    let wrong = Document::from_entries(vec![
        pair("rule-providers", Value::Null),
        pair("rules", Value::Null),
    ]);
    assert_eq!(wrong.unwrap_err(), ParseError::Rules);
    let wrong = Document::from_entries(vec![pair("rule-providers", Value::Null)]);
    assert_eq!(wrong.unwrap_err(), ParseError::RuleProviders);
}

#[test]
fn entries_hold_the_settings_and_the_three_fields() {
    let mut document = Document::new();
    document.settings.insert("mode".to_string(), text("rule"));
    document
        .settings
        .insert("rules".to_string(), text("overwritten"));
    document.proxies.push(text("p"));
    document.rules.push(text("R1"));
    document.rule_providers.insert(text("ads"), text("x"));

    let top = document.entries();
    assert_eq!(top.len(), 4);
    assert_eq!(top.get("mode"), Some(&text("rule")));
    assert_eq!(top.get("proxies"), Some(&Value::Sequence(vec![text("p")])));
    assert_eq!(top.get("rules"), Some(&Value::Sequence(vec![text("R1")])));
    let mut providers = Mapping::new();
    providers.insert(text("ads"), text("x"));
    assert_eq!(top.get("rule-providers"), Some(&Value::Mapping(providers)));
}

#[test]
fn render_writes_the_empty_document() {
    let document = Document::new();
    assert_eq!(
        document.render(),
        Some("proxies: []\nrule-providers: {}\nrules: []\n".to_string())
    );
}

#[test]
fn render_writes_the_entries_in_key_order() {
    let mut document = Document::new();
    document.settings.insert("port".to_string(), Value::from(7890));
    document.settings.insert("mode".to_string(), text("rule"));
    document.rules.push(text("MATCH,DIRECT"));
    let mut proxy = Mapping::new();
    proxy.insert(text("name"), text("a"));
    proxy.insert(text("port"), Value::from(443));
    document.proxies.push(Value::Mapping(proxy));
    document.rule_providers.insert(text("ads"), text("x"));
    assert_eq!(
        document.render(),
        Some(
            "mode: rule\n\
             port: 7890\n\
             proxies:\n\
             - name: a\n\
             \x20 port: 443\n\
             rule-providers:\n\
             \x20 ads: x\n\
             rules:\n\
             - MATCH,DIRECT\n"
                .to_string()
        )
    );
}

#[test]
fn render_then_parse_gives_the_document_again() {
    let first = Document::parse(
        "mode: rule\nproxies:\n- name: a\nrules:\n- R1\n- R2\nrule-providers:\n  ads:\n    url: u\n",
    )
    .unwrap();
    let again = Document::parse(&first.render().unwrap()).unwrap();
    assert_eq!(again.settings, first.settings);
    assert_eq!(again.proxies, first.proxies);
    assert_eq!(again.rules, first.rules);
    assert_eq!(again.rule_providers, first.rule_providers);
}

#[test]
fn written_text_is_the_text_or_nothing() {
    assert_eq!(written_text(Ok("a: 1\n".to_string())), Some("a: 1\n".to_string()));
    let failure = serde_yaml::from_str::<Value>("a: [").unwrap_err();
    assert_eq!(written_text(Err(failure)), None);
}

#[test]
fn clone_holds_the_same_document() {
    let first = Document::parse("mode: rule\nproxies:\n- a\nrules:\n- R1\nrule-providers:\n  x: y\n")
        .unwrap();
    let mut copy = first.clone();
    assert_eq!(copy.settings, first.settings);
    assert_eq!(copy.proxies, first.proxies);
    assert_eq!(copy.rules, first.rules);
    assert_eq!(copy.rule_providers, first.rule_providers);
    copy.rules.push(text("R2"));
    assert_eq!(first.rules, vec![text("R1")]);
}

#[test]
fn parse_reads_a_tagged_field_as_what_it_holds() {
    let document = Document::parse("proxies: !list\n- a\n- b\nrule-providers: !map\n  x: y\n").unwrap();
    assert_eq!(document.proxies, vec![text("a"), text("b")]);
    let mut providers = Mapping::new();
    providers.insert(text("x"), text("y"));
    assert_eq!(document.rule_providers, providers);
}

#[test]
fn default_document_is_empty() {
    let document = Document::default();
    assert_eq!(document.settings.len(), 0);
    assert!(document.proxies.is_empty());
    assert!(document.rules.is_empty());
    assert!(document.rule_providers.is_empty());
}

#[test]
fn render_gives_nothing_for_a_tag_within_a_tag() {
    let inner = Value::Tagged(Box::new(TaggedValue {
        tag: Tag::new("b"),
        value: text("x"),
    }));
    let outer = Value::Tagged(Box::new(TaggedValue {
        tag: Tag::new("a"),
        value: inner,
    }));
    let mut document = Document::new();
    document.settings.insert("mode".to_string(), outer);
    assert_eq!(document.render(), None);

    let mut document = Document::new();
    document.rules.push(Value::Tagged(Box::new(TaggedValue {
        tag: Tag::new("a"),
        value: text("x"),
    })));
    assert_eq!(
        document.render(),
        Some("proxies: []\nrule-providers: {}\nrules:\n- !a x\n".to_string())
    );
}
