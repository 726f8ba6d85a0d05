use std::collections::HashMap;

use potenv::env::{EnvProvider, HashMapProvider};
use potenv::evaluator::EvaluationError;
use potenv::parser::ParseError;
use potenv::{Potenv, PotenvError, SourceFile};

fn provider(pairs: &[(&str, &str)]) -> HashMapProvider {
    let mut m: HashMap<String, String> = HashMap::new();
    for (k, v) in pairs {
        m.insert(k.to_string(), v.to_string());
    }
    HashMapProvider::from(m)
}

fn file(name: &str, content: &str) -> SourceFile {
    SourceFile { name: Some(name.to_string()), content: content.to_string() }
}

#[test]
fn test_evaluate_files_cumulative() {
    // An earlier file's assignment is a scope hit for a later file.
    let potenv = Potenv::new(provider(&[]), false);
    let files = vec![file("one.env", "A=1"), file("two.env", "B=${A}2")];
    let scope = potenv.evaluate(&files).unwrap();
    assert_eq!(Some("1".to_string()), scope.get("A"));
    assert_eq!(Some("12".to_string()), scope.get("B"));
    assert_eq!(2, scope.len());
}

#[test]
fn test_evaluate_reports_file_of_error() {
    let potenv = Potenv::new(provider(&[]), false);
    let files = vec![file("ok.env", "A=1"), file("bad.env", "B=$(pwd)")];
    let err = potenv.evaluate(&files).unwrap_err();
    match err {
        PotenvError::ParseError(ParseError::Syntax(e)) => {
            assert_eq!(Some("bad.env".to_string()), e.file());
            assert_eq!((1, 4), (e.line(), e.column()));
        },
        other => panic!("expected a syntax error, got {:?}", other),
    }
}

#[test]
fn test_evaluate_error_aborts() {
    let potenv = Potenv::new(provider(&[]), false);
    let files = vec![file("a.env", "A=${X:?stop}")];
    let err = potenv.evaluate(&files).unwrap_err();
    assert!(matches!(
        err,
        PotenvError::EvaluationError(EvaluationError::UndefinedVariable(n, m))
            if n == "X" && m == "stop"
    ));
}

#[test]
fn test_load_respects_override_rule() {
    // Without override, a name the provider holds is not overwritten.
    let mut potenv = Potenv::new(provider(&[("KEEP", "old")]), false);
    let files = vec![file("a.env", "KEEP=new\nFRESH=yes")];
    let scope = potenv.load(&files).unwrap();
    assert_eq!(Some("old".to_string()), scope.get("KEEP"));
    assert_eq!(Some("yes".to_string()), scope.get("FRESH"));
    assert_eq!(Some("old".to_string()), potenv.provider().var("KEEP"));
    assert_eq!(Some("yes".to_string()), potenv.provider().var("FRESH"));
}

#[test]
fn test_load_with_override_writes_all() {
    let mut potenv = Potenv::new(provider(&[("KEEP", "old")]), true);
    let files = vec![file("a.env", "KEEP=new\nFRESH=yes")];
    let scope = potenv.load(&files).unwrap();
    assert_eq!(Some("new".to_string()), scope.get("KEEP"));
    assert_eq!(Some("new".to_string()), potenv.provider().var("KEEP"));
    assert_eq!(Some("yes".to_string()), potenv.provider().var("FRESH"));
}

#[test]
fn test_load_error_writes_nothing() {
    let mut potenv = Potenv::new(provider(&[]), false);
    let files = vec![file("a.env", "A=1\nB=${X?gone}")];
    assert!(potenv.load(&files).is_err());
    assert_eq!(None, potenv.provider().var("A"));
}

#[test]
fn test_evaluate_leaves_provider_alone() {
    let potenv = Potenv::new(provider(&[]), false);
    let files = vec![file("a.env", "A=${B:=side}")];
    let scope = potenv.evaluate(&files).unwrap();
    assert_eq!(Some("side".to_string()), scope.get("A"));
    assert_eq!(Some("side".to_string()), scope.get("B"));
    assert_eq!(None, potenv.provider().var("B"));
}

#[test]
fn test_evaluate_twice_same_scope() {
    // Evaluation is pure with respect to the provider: a second run
    // yields the same scope.
    let potenv = Potenv::new(provider(&[("X", "v")]), true);
    let files = vec![file("a.env", "A=${X:-d}\nB=${Y:=side}\nC=$B")];
    let s1 = potenv.evaluate(&files).unwrap();
    let s2 = potenv.evaluate(&files).unwrap();
    assert_eq!(s1.len(), s2.len());
    let mut i = 0;
    while i < s1.len() {
        assert_eq!(s1.pair(i), s2.pair(i));
        i += 1;
    }
}

#[test]
fn test_override_env_builder() {
    let potenv = Potenv::new(provider(&[("K", "p")]), false).override_env(true);
    let scope = potenv.evaluate(&vec![file("a.env", "K=x")]).unwrap();
    assert_eq!(Some("x".to_string()), scope.get("K"));
}

#[test]
fn test_character_conservation_instance() {
    // A plain value is carried through unchanged, character for
    // character.
    let potenv = Potenv::new(provider(&[]), false);
    let scope = potenv
        .evaluate(&vec![file("a.env", "PATHISH=/usr/local,opt.d:x_9")])
        .unwrap();
    assert_eq!(Some("/usr/local,opt.d:x_9".to_string()), scope.get("PATHISH"));
}

#[test]
fn test_single_quote_transparency_instance() {
    let potenv = Potenv::new(provider(&[]), false);
    let scope = potenv
        .evaluate(&vec![file("a.env", "A='$B \\ \"x\" `y`'")])
        .unwrap();
    assert_eq!(Some("$B \\ \"x\" `y`".to_string()), scope.get("A"));
}
