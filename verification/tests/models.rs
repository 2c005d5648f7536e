use clash_config_proxy::models::{first_config, Config, Manifest, Proxy, RuleProvider};
use clash_config_proxy::string_map::StringMap;
use serde_yaml::{Mapping, Value};

fn text(s: &str) -> Value {
    Value::String(s.to_string())
}

fn proxy(name: &str, port: i32) -> Proxy {
    Proxy {
        name: name.to_string(),
        protocol: "socks5".to_string(),
        username: "user".to_string(),
        password: "secret".to_string(),
        server: "proxy.example.com".to_string(),
        port,
    }
}

fn rule_provider(url: &str, interval: i32) -> RuleProvider {
    RuleProvider {
        protocol: "http".to_string(),
        behavior: "domain".to_string(),
        url: url.to_string(),
        path: "./ads.yaml".to_string(),
        interval,
    }
}

fn proxy_mapping(name: &str, port: i32) -> Mapping {
    let mut expected = Mapping::new();
    expected.insert(text("name"), text(name));
    expected.insert(text("type"), text("socks5"));
    expected.insert(text("username"), text("user"));
    expected.insert(text("password"), text("secret"));
    expected.insert(text("server"), text("proxy.example.com"));
    expected.insert(text("port"), Value::Number(serde_yaml::Number::from(port)));
    expected
}

fn rule_provider_mapping(url: &str, interval: i32) -> Mapping {
    let mut expected = Mapping::new();
    expected.insert(text("type"), text("http"));
    expected.insert(text("behavior"), text("domain"));
    expected.insert(text("url"), text(url));
    expected.insert(text("path"), text("./ads.yaml"));
    expected.insert(
        text("interval"),
        Value::Number(serde_yaml::Number::from(interval)),
    );
    expected
}

#[test]
fn proxy_to_map_holds_the_six_fields() {
    let map = proxy("a", 1080).to_map();
    assert_eq!(map, proxy_mapping("a", 1080));
    assert_eq!(map.len(), 6);
    assert_eq!(map.get("type"), Some(&text("socks5")));
    assert_eq!(map.get("port"), Some(&Value::from(1080)));
    assert_eq!(map.get("protocol"), None);
}

#[test]
fn proxy_to_map_writes_the_fields_in_their_order() {
    assert_eq!(
        serde_yaml::to_string(&proxy("a", -1).to_map()).unwrap(),
        "name: a\ntype: socks5\nusername: user\npassword: secret\nserver: proxy.example.com\nport: -1\n"
    );
}

#[test]
fn rule_provider_to_map_holds_the_five_fields() {
    let map = rule_provider("https://example.com/ads", 86400).to_map();
    assert_eq!(map, rule_provider_mapping("https://example.com/ads", 86400));
    assert_eq!(map.len(), 5);
    assert_eq!(map.get("interval"), Some(&Value::from(86400)));
}

#[test]
fn rule_provider_to_map_writes_the_fields_in_their_order() {
    assert_eq!(
        serde_yaml::to_string(&rule_provider("u", 60).to_map()).unwrap(),
        "type: http\nbehavior: domain\nurl: u\npath: ./ads.yaml\ninterval: 60\n"
    );
}

#[test]
fn default_records_are_empty() {
    assert_eq!(
        Proxy::default(),
        Proxy {
            name: String::new(),
            protocol: String::new(),
            username: String::new(),
            password: String::new(),
            server: String::new(),
            port: 0,
        }
    );
    assert_eq!(
        RuleProvider::default(),
        RuleProvider {
            protocol: String::new(),
            behavior: String::new(),
            url: String::new(),
            path: String::new(),
            interval: 0,
        }
    );
    let manifest = Manifest::default();
    assert_eq!(manifest.port, 0);
    assert_eq!(manifest.token, "");
    assert!(manifest.proxies.is_empty());
    assert!(manifest.rules.is_empty());
    assert_eq!(manifest.rule_providers.len(), 0);
}

#[test]
fn default_manifest_is_the_empty_document() {
    let document = Manifest::default().document();
    assert_eq!(document.settings.len(), 0);
    assert!(document.proxies.is_empty());
    assert!(document.rules.is_empty());
    assert!(document.rule_providers.is_empty());
}

#[test]
fn manifest_document_holds_its_fields_as_values() {
    let mut rule_providers = StringMap::new();
    rule_providers.insert("video".to_string(), rule_provider("v", 1));
    rule_providers.insert("ads".to_string(), rule_provider("a", 2));
    let manifest = Manifest {
        port: 8080,
        token: "t".to_string(),
        proxies: vec![proxy("b", 2), proxy("a", 1)],
        rules: vec!["MATCH,b".to_string(), "DOMAIN,x,a".to_string()],
        rule_providers,
    };
    let document = manifest.document();

    assert_eq!(document.settings.len(), 0);
    assert_eq!(
        document.proxies,
        vec![
            Value::Mapping(proxy_mapping("b", 2)),
            Value::Mapping(proxy_mapping("a", 1)),
        ]
    );
    assert_eq!(document.rules, vec![text("MATCH,b"), text("DOMAIN,x,a")]);
    let mut expected = Mapping::new();
    expected.insert(text("ads"), Value::Mapping(rule_provider_mapping("a", 2)));
    expected.insert(text("video"), Value::Mapping(rule_provider_mapping("v", 1)));
    assert_eq!(document.rule_providers, expected);
    let names: Vec<&Value> = document.rule_providers.keys().collect();
    assert_eq!(names, vec![&text("ads"), &text("video")]);
}

#[test]
fn config_to_new_borrows_name_and_url() {
    let config = Config {
        id: 7,
        name: "home".to_string(),
        url: "https://example.com/sub".to_string(),
    };
    let new = config.to_new();
    assert_eq!(new.name, "home");
    assert_eq!(new.url, "https://example.com/sub");
}

#[test]
fn config_with_id_changes_the_id_only() {
    let config = Config {
        id: 0,
        name: "home".to_string(),
        url: "https://example.com/sub".to_string(),
    };
    assert_eq!(
        config.with_id(42),
        Config {
            id: 42,
            name: "home".to_string(),
            url: "https://example.com/sub".to_string(),
        }
    );
}

#[test]
fn first_config_is_the_first_that_was_found() {
    let a = Config {
        id: 1,
        name: "home".to_string(),
        url: "https://a.example.com".to_string(),
    };
    let b = Config {
        id: 2,
        name: "home".to_string(),
        url: "https://b.example.com".to_string(),
    };
    assert_eq!(first_config(&vec![]), None);
    assert_eq!(first_config(&vec![a.clone()]), Some(&a));
    assert_eq!(first_config(&vec![b.clone(), a.clone()]), Some(&b));
}
