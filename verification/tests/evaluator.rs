use std::collections::HashMap;

use potenv::env::HashMapProvider;
use potenv::evaluator::{EvaluationError, Evaluator, Scope};
use potenv::parser::{parse, ParseError};

fn provider(pairs: &[(&str, &str)]) -> HashMapProvider {
    let mut m: HashMap<String, String> = HashMap::new();
    for (k, v) in pairs {
        m.insert(k.to_string(), v.to_string());
    }
    HashMapProvider::from(m)
}

#[derive(Debug)]
enum EvalError {
    Parse(ParseError),
    Eval(EvaluationError),
}

fn eval(input: &str, env: &[(&str, &str)], override_env: bool) -> Result<Scope, EvalError> {
    let p = provider(env);
    let mut ev = Evaluator::new(&p, override_env);
    let ast = parse(input, Some("<test>")).map_err(EvalError::Parse)?;
    ev.evaluate(ast).map_err(EvalError::Eval)?;
    Ok(ev.into_env())
}

fn assert_scope(scope: &Scope, expected: &[(&str, &str)]) {
    assert_eq!(expected.len(), scope.len(), "wrong number of bindings");
    for (k, v) in expected {
        assert_eq!(Some(v.to_string()), scope.get(k), "wrong value for {}", k);
    }
}

#[test]
fn test_bug() {
    let err = eval("a=${a+${b?}}", &[("a", "")], true).unwrap_err();
    assert!(matches!(
        err,
        EvalError::Eval(EvaluationError::UndefinedVariable(n, m)) if n == "b" && m.is_empty()
    ));
}

#[test]
fn tests_test_spec() {
    // Two plain assignments.
    assert_scope(
        &eval("A=1\nB=2", &[], false).unwrap(),
        &[("A", "1"), ("B", "2")],
    );
    // An earlier binding is visible to a later expansion.
    assert_scope(
        &eval("GREETING=hello\nMSG=\"${GREETING}, world\"", &[], false).unwrap(),
        &[("GREETING", "hello"), ("MSG", "hello, world")],
    );
    // Default for a missing variable.
    assert_scope(
        &eval("A=${MISSING:-default}", &[], false).unwrap(),
        &[("A", "default")],
    );
    // Assign-as-side-effect is visible to later assignments.
    assert_scope(
        &eval("A=${MISSING:=once}\nB=$MISSING", &[], false).unwrap(),
        &[("A", "once"), ("MISSING", "once"), ("B", "once")],
    );
    // Error operator on an absent variable.
    let err = eval("A=${X:?must set X}", &[], false).unwrap_err();
    assert!(matches!(
        err,
        EvalError::Eval(EvaluationError::UndefinedVariable(n, m))
            if n == "X" && m == "must set X"
    ));
    // Error operator on an empty variable.
    let err = eval("A=${X:?nope}", &[("X", "")], false).unwrap_err();
    assert!(matches!(
        err,
        EvalError::Eval(EvaluationError::EmptyValue(n, m)) if n == "X" && m == "nope"
    ));
    // Single quotes are fully literal.
    assert_scope(
        &eval("A='\n$B\n'", &[], false).unwrap(),
        &[("A", "\n$B\n")],
    );
    // Backslash-n is not a double-quote escape target: kept literally.
    assert_scope(
        &eval("A=\"a\\nb\"", &[], false).unwrap(),
        &[("A", "a\\nb")],
    );
    // Provider wins without override; file wins with it.
    assert_scope(&eval("K=x", &[("K", "p")], false).unwrap(), &[("K", "p")]);
    assert_scope(&eval("K=x", &[("K", "p")], true).unwrap(), &[("K", "x")]);
    // A pre-set variable suppresses errors in its expression.
    assert_scope(
        &eval("K=${X:?boom}", &[("K", "p")], false).unwrap(),
        &[("K", "p")],
    );
    // Reassignment keeps the binding's place and changes its value.
    let s = eval("A=1\nB=2\nA=3", &[], false).unwrap();
    assert_scope(&s, &[("A", "3"), ("B", "2")]);
    assert_eq!(("A".to_string(), "3".to_string()), s.pair(0));
    assert_eq!(("B".to_string(), "2".to_string()), s.pair(1));
    // Command and arithmetic expansion are rejected, not run.
    let err = eval("A=$(pwd)", &[], false).unwrap_err();
    assert!(matches!(err, EvalError::Parse(ParseError::Syntax(_))));
    // Positional parameters are rejected.
    let err = eval("A=${0}", &[], false).unwrap_err();
    assert!(matches!(err, EvalError::Parse(ParseError::Syntax(_))));
}

#[test]
fn test_operator_table() {
    // Per-operator behavior for absent, empty and non-empty variables,
    // with a literal right-hand side "r".
    let cases: Vec<(&str, &str, &str, &str)> = vec![
        ("-", "r", "", "v"),
        (":-", "r", "r", "v"),
        ("+", "", "r", "r"),
        (":+", "", "", "r"),
        ("=", "r", "", "v"),
        (":=", "r", "r", "v"),
    ];
    for (op, on_absent, on_empty, on_full) in cases {
        let input = format!("A=${{X{}r}}", op);
        let absent = eval(&input, &[], false).unwrap();
        assert_eq!(Some(on_absent.to_string()), absent.get("A"), "op {} absent", op);
        let empty = eval(&input, &[("X", "")], false).unwrap();
        assert_eq!(Some(on_empty.to_string()), empty.get("A"), "op {} empty", op);
        let full = eval(&input, &[("X", "v")], false).unwrap();
        assert_eq!(Some(on_full.to_string()), full.get("A"), "op {} non-empty", op);
    }
    // The assign family records the fallback; the plain family does not.
    let s = eval("A=${X=r}", &[], false).unwrap();
    assert_eq!(Some("r".to_string()), s.get("X"));
    let s = eval("A=${X:=r}", &[("X", "")], false).unwrap();
    assert_eq!(Some("r".to_string()), s.get("X"));
    let s = eval("A=${X-r}", &[], false).unwrap();
    assert_eq!(None, s.get("X"));
    // `-` on empty keeps the empty value; `+` on absent yields empty.
    let s = eval("A=${X-r}", &[("X", "")], false).unwrap();
    assert_eq!(Some("".to_string()), s.get("A"));
    let s = eval("A=${X+r}", &[], false).unwrap();
    assert_eq!(Some("".to_string()), s.get("A"));
    // The error operators.
    assert!(matches!(
        eval("A=${X?m}", &[], false).unwrap_err(),
        EvalError::Eval(EvaluationError::UndefinedVariable(n, m)) if n == "X" && m == "m"
    ));
    let s = eval("A=${X?m}", &[("X", "")], false).unwrap();
    assert_eq!(Some("".to_string()), s.get("A"));
    let s = eval("A=${X?m}", &[("X", "v")], false).unwrap();
    assert_eq!(Some("v".to_string()), s.get("A"));
    assert!(matches!(
        eval("A=${X:?m}", &[], false).unwrap_err(),
        EvalError::Eval(EvaluationError::UndefinedVariable(n, m)) if n == "X" && m == "m"
    ));
    assert!(matches!(
        eval("A=${X:?m}", &[("X", "")], false).unwrap_err(),
        EvalError::Eval(EvaluationError::EmptyValue(n, m)) if n == "X" && m == "m"
    ));
    let s = eval("A=${X:?m}", &[("X", "v")], false).unwrap();
    assert_eq!(Some("v".to_string()), s.get("A"));
    // A nested expansion as the right-hand side.
    let s = eval("A=${X:-${Y:-deep}}", &[], false).unwrap();
    assert_eq!(Some("deep".to_string()), s.get("A"));
    let s = eval("A=${X:-${Y:-deep}}", &[("Y", "mid")], false).unwrap();
    assert_eq!(Some("mid".to_string()), s.get("A"));
    // An empty right-hand side.
    let s = eval("A=${X:-}", &[], false).unwrap();
    assert_eq!(Some("".to_string()), s.get("A"));
}

#[test]
fn test_provider_not_written() {
    // Assign-as-side-effect touches the scope only, never the provider.
    let p = provider(&[]);
    let mut ev = Evaluator::new(&p, false);
    let ast = parse("A=${MISSING:=once}", Some("<test>")).unwrap();
    ev.evaluate(ast).unwrap();
    let scope = ev.into_env();
    assert_eq!(Some("once".to_string()), scope.get("MISSING"));
    assert_eq!(None, potenv::env::EnvProvider::var(&p, "MISSING"));
}

#[test]
fn test_evaluation_repeatable() {
    // Evaluating twice against the same provider yields the same scope.
    let p = provider(&[("X", "v")]);
    let input = "A=${X:-d}\nB=${Y:=side}\nC=$B";
    let ast1 = parse(input, None).unwrap();
    let ast2 = parse(input, None).unwrap();
    let mut ev1 = Evaluator::new(&p, true);
    ev1.evaluate(ast1).unwrap();
    let s1 = ev1.into_env();
    let mut ev2 = Evaluator::new(&p, true);
    ev2.evaluate(ast2).unwrap();
    let s2 = ev2.into_env();
    assert_eq!(s1.len(), s2.len());
    let mut i = 0;
    while i < s1.len() {
        assert_eq!(s1.pair(i), s2.pair(i));
        i += 1;
    }
}

#[test]
fn test_scope_of_evaluator_copy() {
    let p = provider(&[]);
    let mut ev = Evaluator::new(&p, false);
    ev.evaluate(parse("A=1", None).unwrap()).unwrap();
    let snapshot = ev.scope();
    ev.evaluate(parse("B=2", None).unwrap()).unwrap();
    let fin = ev.into_env();
    assert_eq!(1, snapshot.len());
    assert_eq!(2, fin.len());
    assert_eq!(Some("1".to_string()), snapshot.get("A"));
    assert_eq!(None, snapshot.get("B"));
}
