use std::collections::HashMap;

use potenv::env::{EnvProvider, HashMapProvider};

#[test]
fn test_hashmap() {
    let mut env = HashMapProvider::from(HashMap::new());
    let name = "__TEST_VAR__";
    let value = "foobar";
    env.set_var(name, value);
    let result = env.var(name).unwrap();
    assert_eq!(value, result);
}

#[test]
fn test_from_non_empty_map() {
    let mut m: HashMap<String, String> = HashMap::new();
    m.insert("A".to_string(), "1".to_string());
    m.insert("B".to_string(), "2".to_string());
    let env = HashMapProvider::from(m);
    assert_eq!(Some("1".to_string()), env.var("A"));
    assert_eq!(Some("2".to_string()), env.var("B"));
    assert_eq!(None, env.var("C"));
}

#[test]
fn test_set_var_overwrites() {
    let mut env = HashMapProvider::new();
    assert_eq!(None, env.var("K"));
    env.set_var("K", "one");
    assert_eq!(Some("one".to_string()), env.var("K"));
    env.set_var("K", "two");
    assert_eq!(Some("two".to_string()), env.var("K"));
    env.set_var("L", "x");
    assert_eq!(Some("two".to_string()), env.var("K"));
    assert_eq!(Some("x".to_string()), env.var("L"));
}

#[test]
fn test_absent_and_empty_are_distinct() {
    let mut env = HashMapProvider::new();
    env.set_var("E", "");
    assert_eq!(Some("".to_string()), env.var("E"));
    assert_eq!(None, env.var("F"));
}
