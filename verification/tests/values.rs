use clash_config_proxy::string_map::StringMap;
use clash_config_proxy::values::{
    add_missing_entries, append_values, clone_entries, clone_mapping, clone_values, entry_list,
    extend_mapping,
};
use serde_yaml::{Mapping, Value};

fn text(s: &str) -> Value {
    Value::String(s.to_string())
}

fn mapping(pairs: &[(&str, &str)]) -> Mapping {
    let mut m = Mapping::new();
    for (k, v) in pairs {
        m.insert(text(k), text(v));
    }
    m
}

fn entries(pairs: &[(&str, &str)]) -> StringMap<Value> {
    let mut m = StringMap::new();
    for (k, v) in pairs {
        m.insert(k.to_string(), text(v));
    }
    m
}

#[test]
fn clone_values_copies_the_items_in_order() {
    let items = vec![text("b"), Value::from(1), text("a"), Value::Null];
    assert_eq!(clone_values(&items), items);
    assert_eq!(clone_values(&vec![]), Vec::<Value>::new());
}

#[test]
fn append_values_puts_the_items_at_the_end() {
    let mut target = vec![text("a"), text("b")];
    append_values(&mut target, &vec![text("c"), text("a")]);
    assert_eq!(target, vec![text("a"), text("b"), text("c"), text("a")]);
    append_values(&mut target, &vec![]);
    assert_eq!(target.len(), 4);
}

#[test]
fn extend_mapping_lets_the_source_win() {
    let mut target = mapping(&[("a", "old"), ("b", "old")]);
    extend_mapping(&mut target, &mapping(&[("c", "new"), ("a", "new")]));
    assert_eq!(
        target,
        mapping(&[("a", "new"), ("b", "old"), ("c", "new")])
    );
    let keys: Vec<&Value> = target.keys().collect();
    assert_eq!(keys, vec![&text("a"), &text("b"), &text("c")]);
}

#[test]
fn clone_mapping_copies_the_entries() {
    let m = mapping(&[("z", "1"), ("a", "2")]);
    let copy = clone_mapping(&m);
    assert_eq!(copy, m);
    let keys: Vec<&Value> = copy.keys().collect();
    assert_eq!(keys, vec![&text("z"), &text("a")]);
}

#[test]
fn add_missing_entries_lets_the_target_win() {
    let mut target = entries(&[("mode", "kept"), ("dns", "kept")]);
    add_missing_entries(&mut target, &entries(&[("mode", "late"), ("log", "added")]));
    assert_eq!(
        target,
        entries(&[("dns", "kept"), ("log", "added"), ("mode", "kept")])
    );
}

#[test]
fn clone_entries_copies_the_map() {
    let m = entries(&[("b", "1"), ("a", "2")]);
    assert_eq!(clone_entries(&m), m);
    assert_eq!(clone_entries(&StringMap::new()).len(), 0);
}

#[test]
fn entry_list_gives_the_entries_in_key_order() {
    let m = entries(&[("rules", "3"), ("mode", "1"), ("proxies", "2")]);
    assert_eq!(
        entry_list(&m),
        vec![
            ("mode".to_string(), text("1")),
            ("proxies".to_string(), text("2")),
            ("rules".to_string(), text("3")),
        ]
    );
}
