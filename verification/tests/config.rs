use linked_hash_map::LinkedHashMap;
use yaml_rust::yaml::Yaml;
use yaml_rust::YamlLoader;

use swc2dot::config::group_from_yaml_hash;
use swc2dot::config::Config;
use swc2dot::config::ConfigOptionGroup;
use swc2dot::config::YamlParseError;
use swc2dot::swc_parser::SWCCompartmentKind;

fn load_hash_from_str(string: &str) -> LinkedHashMap<Yaml, Yaml> {
    let doc = YamlLoader::load_from_str(string)
        .unwrap_or_else(|_| panic!("Could not load {} as a yaml string", string))[0]
        .clone();
    doc.into_hash().expect("Could not create yaml hash")
}

fn parse_hash(string: &str) -> ConfigOptionGroup {
    let yaml = load_hash_from_str(string);
    match group_from_yaml_hash(&yaml) {
        Ok(result) => result,
        Err(_) => panic!("Could not parse hash entry as String key and Option<String> value"),
    }
}

#[test]
fn parse_single_string_entry() {
    let parsed = parse_hash("key: value");

    assert!(
        parsed.contains_key("key"),
        "Resulting HashMap does not contain expected key 'key'"
    );
    assert_eq!(
        parsed.get("key"),
        Some(&Some("value".to_string())),
        "Expected value associated with key 'key' to be 'value'"
    );
}

#[test]
fn parse_multiple_string_entries() {
    let yaml_string = "key1: value1\nkey2: value2";
    let parsed = parse_hash(yaml_string);

    assert!(
        parsed.contains_key("key1"),
        "Resulting HashMap does not contain expected key 'key1'"
    );
    assert!(
        parsed.contains_key("key2"),
        "Resulting HashMap does not contain expected key 'key2'"
    );
    assert_eq!(
        parsed.get("key1"),
        Some(&Some("value1".to_string())),
        "Expected value associated with key 'key1' to be 'value1'"
    );
    assert_eq!(
        parsed.get("key2"),
        Some(&Some("value2".to_string())),
        "Expected value associated with key 'key2' to be 'value2'"
    );
}

#[test]
fn parse_float_as_string() {
    let parsed = parse_hash("key: 1.23");

    assert!(
        parsed.contains_key("key"),
        "Resulting HashMap does not contain expected key 'key'"
    );
    assert_eq!(
        parsed.get("key"),
        Some(&Some("1.23".to_string())),
        "Expected value associated with key 'key' to be '1.23'"
    );
}

#[test]
fn parse_int_as_string() {
    let parsed = parse_hash("key: 23");

    assert!(
        parsed.contains_key("key"),
        "Resulting HashMap does not contain expected key 'key'"
    );
    assert_eq!(
        parsed.get("key"),
        Some(&Some("23".to_string())),
        "Expected value associated with key 'key' to be '23'"
    );
}

#[test]
fn parse_bool_true_as_string() {
    let parsed = parse_hash("key: true");

    assert!(
        parsed.contains_key("key"),
        "Resulting HashMap does not contain expected key 'key'"
    );
    assert_eq!(
        parsed.get("key"),
        Some(&Some("true".to_string())),
        "Expected value associated with key 'key' to be 'true'"
    );
}

#[test]
#[allow(non_snake_case)]
fn parse_bool_True_as_string() {
    let parsed = parse_hash("key: True");

    assert!(
        parsed.contains_key("key"),
        "Resulting HashMap does not contain expected key 'key'"
    );
    assert_eq!(
        parsed.get("key"),
        Some(&Some("True".to_string())),
        "Expected value associated with key 'key' to be 'True'"
    );
}

#[test]
#[allow(non_snake_case)]
fn parse_bool_TRUE_as_string() {
    let parsed = parse_hash("key: TRUE");

    assert!(
        parsed.contains_key("key"),
        "Resulting HashMap does not contain expected key 'key'"
    );
    assert_eq!(
        parsed.get("key"),
        Some(&Some("TRUE".to_string())),
        "Expected value associated with key 'key' to be 'TRUE'"
    );
}

#[test]
#[allow(non_snake_case)]
fn parse_empty_value_as_None() {
    let parsed = parse_hash("key:");

    assert!(
        parsed.contains_key("key"),
        "Resulting HashMap does not contain expected key 'key'"
    );
    assert_eq!(
        parsed.get("key"),
        Some(&None),
        "Expected value associated with key 'key' to be None"
    );
}

#[test]
fn overload_merges_per_option() {
    let mut config = Config::new();
    config
        .overload_from_str("soma:\n  color: red\n  shape: circle\n", "defaults")
        .unwrap();
    config
        .overload_from_str("soma:\n  color: blue\n", "overrides")
        .unwrap();

    let soma = config.get_config(SWCCompartmentKind::Soma);
    assert_eq!(soma.get("color"), Some(&Some("blue".to_string())));
    // An option not mentioned by the override survives unchanged.
    assert_eq!(soma.get("shape"), Some(&Some("circle".to_string())));
    // A kind absent from both documents stays empty.
    assert_eq!(config.get_config(SWCCompartmentKind::Axon).len(), 0);
}

#[test]
fn missing_group_is_legal_noop() {
    let mut config = Config::new();
    config
        .overload_from_str("axon:\n  color: green\n", "defaults")
        .unwrap();
    config.overload_from_str("soma:\n  color: red\n", "overrides").unwrap();
    let axon = config.get_config(SWCCompartmentKind::Axon);
    assert_eq!(axon.get("color"), Some(&Some("green".to_string())));
}

#[test]
fn wrong_shaped_group_is_structural_error() {
    let mut config = Config::new();
    match config.overload_from_str("soma: just a string\n", "overrides") {
        Err(YamlParseError::WrongType(msg)) => assert!(msg.contains("soma")),
        _ => assert!(false),
    }
}

#[test]
fn wrong_shaped_value_is_structural_error() {
    let mut config = Config::new();
    match config.overload_from_str("soma:\n  color:\n    - a\n    - b\n", "overrides") {
        Err(YamlParseError::WrongType(msg)) => assert!(msg.contains("color")),
        _ => assert!(false),
    }
}

#[test]
fn unreadable_document_is_file_read_error() {
    let mut config = Config::new();
    assert!(matches!(
        config.overload_from_str("{", "overrides"),
        Err(YamlParseError::FileRead(_))
    ));
}

#[test]
fn non_hash_document_is_structural_error() {
    let mut config = Config::new();
    assert!(matches!(
        config.overload_from_str("- a\n- b\n", "overrides"),
        Err(YamlParseError::WrongType(_))
    ));
}

#[test]
fn group_insert_keeps_insertion_order() {
    let mut group = ConfigOptionGroup::new();
    group.insert("b".to_string(), Some("1".to_string()));
    group.insert("a".to_string(), Some("2".to_string()));
    group.insert("b".to_string(), Some("3".to_string()));
    assert_eq!(group.len(), 2);
    let first = group.get_index(0);
    assert_eq!(first.0, "b".to_string());
    assert_eq!(first.1, Some("3".to_string()));
    let second = group.get_index(1);
    assert_eq!(second.0, "a".to_string());
    assert_eq!(second.1, Some("2".to_string()));
}
