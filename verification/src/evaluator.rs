//! The evaluator: resolves each assignment against a layered scope (the
//! external provider plus the bindings accumulated so far) and
//! implements the eight expansion operators, including the ones with
//! side effects and the ones that raise errors.

use vstd::prelude::*;

use crate::ast::{
    assignment_view, assignments_view, expansion_view, exprs_view, lemma_exprs_view_index,
    lemma_exprs_view_len, Assignment, Expansion, Expression, Operator, SpecAssignment,
    SpecExpansion, SpecExpression,
};
use crate::env::{pairs_get, pairs_view, str_eq, EnvProvider};

verus! {

/// An evaluation error: an `ErrorIfUnset` operator hit an absent
/// variable, or an `ErrorIfUnsetOrNull` operator hit an absent or empty
/// one. Both carry the variable name and the evaluated message.
#[derive(Debug, PartialEq)]
pub enum EvaluationError {
    UndefinedVariable(String, String),
    EmptyValue(String, String),
}

/// Mathematical model of an evaluation error.
pub ghost enum SpecEvalError {
    UndefinedVariable(Seq<char>, Seq<char>),
    EmptyValue(Seq<char>, Seq<char>),
}

impl View for EvaluationError {
    type V = SpecEvalError;

    open spec fn view(&self) -> SpecEvalError {
        match self {
            EvaluationError::UndefinedVariable(n, m) => SpecEvalError::UndefinedVariable(n@, m@),
            EvaluationError::EmptyValue(n, m) => SpecEvalError::EmptyValue(n@, m@),
        }
    }
}

// ---------------------------------------------------------------------
// The scope
// ---------------------------------------------------------------------

/// The bindings accumulated during one evaluation, in insertion order.
/// Reassigning a name keeps its place and changes its value.
#[derive(Debug)]
pub struct Scope {
    entries: Vec<(String, String)>,
}

/// Bind `name` to `value` in an ordered binding sequence: the first
/// binding of `name` keeps its place and changes its value; a new name
/// goes to the end.
pub open spec fn scope_set(
    s: Seq<(Seq<char>, Seq<char>)>,
    name: Seq<char>,
    value: Seq<char>,
) -> Seq<(Seq<char>, Seq<char>)>
    decreases s.len(),
{
    if s.len() == 0 {
        seq![(name, value)]
    } else if s[0].0 == name {
        seq![(name, value)] + s.drop_first()
    } else {
        seq![s[0]] + scope_set(s.drop_first(), name, value)
    }
}

/// Binding a name that stands at `i` (and nowhere earlier) replaces the
/// pair at `i`.
pub proof fn lemma_scope_set_update(
    s: Seq<(Seq<char>, Seq<char>)>,
    i: int,
    name: Seq<char>,
    value: Seq<char>,
)
    requires
        0 <= i < s.len(),
        s[i].0 == name,
        forall|j: int| 0 <= j < i ==> s[j].0 != name,
    ensures
        scope_set(s, name, value) == s.update(i, (name, value)),
    decreases i,
{
    if i == 0 {
        assert(scope_set(s, name, value) =~= s.update(0, (name, value)));
    } else {
        lemma_scope_set_update(s.drop_first(), i - 1, name, value);
        assert(scope_set(s, name, value) =~= s.update(i, (name, value)));
    }
}

/// Binding a name that stands nowhere in the sequence appends the pair.
pub proof fn lemma_scope_set_append(
    s: Seq<(Seq<char>, Seq<char>)>,
    name: Seq<char>,
    value: Seq<char>,
)
    requires
        forall|j: int| 0 <= j < s.len() ==> s[j].0 != name,
    ensures
        scope_set(s, name, value) == s.push((name, value)),
    decreases s.len(),
{
    if s.len() == 0 {
        assert(scope_set(s, name, value) =~= s.push((name, value)));
    } else {
        lemma_scope_set_append(s.drop_first(), name, value);
        assert(scope_set(s, name, value) =~= s.push((name, value)));
    }
}

/// Binding a name and then looking names up: the bound name yields the
/// new value, every other name is untouched.
pub proof fn lemma_scope_set_get(
    s: Seq<(Seq<char>, Seq<char>)>,
    name: Seq<char>,
    value: Seq<char>,
    k: Seq<char>,
)
    ensures
        pairs_get(scope_set(s, name, value), k) == (if k == name {
            Some(value)
        } else {
            pairs_get(s, k)
        }),
    decreases s.len(),
{
    if s.len() == 0 {
        assert(scope_set(s, name, value) =~= seq![(name, value)]);
        assert(seq![(name, value)].drop_first() =~= Seq::<(Seq<char>, Seq<char>)>::empty());
        assert(pairs_get(Seq::<(Seq<char>, Seq<char>)>::empty(), k) is None);
        assert(pairs_get(scope_set(s, name, value), k) == (if k == name {
            Some(value)
        } else {
            pairs_get(s, k)
        }));
    } else if s[0].0 == name {
        let r = seq![(name, value)] + s.drop_first();
        assert(r.drop_first() =~= s.drop_first());
        assert(pairs_get(scope_set(s, name, value), k) == (if k == name {
            Some(value)
        } else {
            pairs_get(s, k)
        }));
    } else {
        lemma_scope_set_get(s.drop_first(), name, value, k);
        let r = seq![s[0]] + scope_set(s.drop_first(), name, value);
        assert(r.drop_first() =~= scope_set(s.drop_first(), name, value));
        assert(pairs_get(scope_set(s, name, value), k) == (if k == name {
            Some(value)
        } else {
            pairs_get(s, k)
        }));
    }
}

/// Distinct names stay distinct under binding: a scope built from the
/// empty scope by bindings alone never holds a name twice, so iterating
/// it yields each name once, in insertion order.
pub proof fn lemma_scope_set_distinct(
    s: Seq<(Seq<char>, Seq<char>)>,
    name: Seq<char>,
    value: Seq<char>,
)
    requires
        forall|i: int, j: int| 0 <= i < j < s.len() ==> s[i].0 != s[j].0,
    ensures
        ({
            let r = scope_set(s, name, value);
            forall|i: int, j: int| 0 <= i < j < r.len() ==> r[i].0 != r[j].0
        }),
    decreases s.len(),
{
    if s.len() == 0 {
    } else if s[0].0 == name {
        let r = seq![(name, value)] + s.drop_first();
        assert(forall|i: int, j: int| 0 <= i < j < r.len() ==> r[i].0 != r[j].0) by {
            assert(forall|i: int| 0 <= i < s.drop_first().len() ==> s.drop_first()[i]
                == s[i + 1]);
        }
    } else {
        assert(forall|i: int, j: int|
            0 <= i < j < s.drop_first().len() ==> s.drop_first()[i].0 != s.drop_first()[j].0) by {
            assert(forall|i: int| 0 <= i < s.drop_first().len() ==> s.drop_first()[i]
                == s[i + 1]);
        }
        lemma_scope_set_distinct(s.drop_first(), name, value);
        let rr = scope_set(s.drop_first(), name, value);
        lemma_scope_set_contains(s.drop_first(), name, value);
        let r = seq![s[0]] + rr;
        assert(forall|i: int| 0 <= i < rr.len() ==> r[i + 1] == rr[i]);
        assert(forall|i: int, j: int| 0 <= i < j < r.len() ==> r[i].0 != r[j].0);
    }
}

/// Every name in a bound scope is the bound name or a name that was
/// already there.
proof fn lemma_scope_set_contains(
    s: Seq<(Seq<char>, Seq<char>)>,
    name: Seq<char>,
    value: Seq<char>,
)
    ensures
        ({
            let r = scope_set(s, name, value);
            forall|i: int|
                0 <= i < r.len() ==> #[trigger] r[i].0 == name || exists|j: int|
                    0 <= j < s.len() && s[j].0 == #[trigger] r[i].0
        }),
    decreases s.len(),
{
    if s.len() == 0 {
        let r = scope_set(s, name, value);
        assert(r =~= seq![(name, value)]);
    } else if s[0].0 == name {
        let r = seq![(name, value)] + s.drop_first();
        assert(forall|i: int| 0 <= i < s.drop_first().len() ==> s.drop_first()[i] == s[i + 1]);
        assert(forall|i: int|
            0 <= i < r.len() ==> #[trigger] r[i].0 == name || exists|j: int|
                0 <= j < s.len() && s[j].0 == #[trigger] r[i].0);
    } else {
        lemma_scope_set_contains(s.drop_first(), name, value);
        let rr = scope_set(s.drop_first(), name, value);
        let r = seq![s[0]] + rr;
        assert(forall|i: int| 0 <= i < s.drop_first().len() ==> s.drop_first()[i] == s[i + 1]);
        assert(forall|i: int| 0 <= i < rr.len() ==> r[i + 1] == rr[i]);
        assert forall|i: int| 0 <= i < r.len() implies #[trigger] r[i].0 == name || exists|j: int|
            0 <= j < s.len() && s[j].0 == r[i].0 by {
            if i == 0 {
                assert(s[0].0 == r[0].0);
            } else {
                assert(r[i] == rr[i - 1]);
                if rr[i - 1].0 != name {
                    let j = choose|j: int|
                        0 <= j < s.drop_first().len() && s.drop_first()[j].0 == rr[i - 1].0;
                    assert(s[j + 1].0 == r[i].0);
                }
            }
        }
    }
}

/// No name bound twice: what a scope built from the empty scope by
/// bindings alone always satisfies.
pub open spec fn scope_distinct(s: Seq<(Seq<char>, Seq<char>)>) -> bool {
    forall|i: int, j: int| 0 <= i < j < s.len() ==> s[i].0 != s[j].0
}

impl View for Scope {
    type V = Seq<(Seq<char>, Seq<char>)>;

    closed spec fn view(&self) -> Seq<(Seq<char>, Seq<char>)> {
        pairs_view(self.entries@)
    }
}

impl Scope {
    /// Well-formed: each name bound at most once, so iteration yields
    /// each name once, in insertion order.
    pub open spec fn wf(&self) -> bool {
        scope_distinct(self@)
    }

    /// An empty scope.
    pub fn new() -> (r: Self)
        ensures
            r@ == Seq::<(Seq<char>, Seq<char>)>::empty(),
            r.wf(),
    {
        let r = Scope { entries: Vec::new() };
        proof {
            assert(r@ =~= Seq::<(Seq<char>, Seq<char>)>::empty());
        }
        r
    }

    /// The number of bindings.
    pub fn len(&self) -> (r: usize)
        ensures
            r == self@.len(),
    {
        self.entries.len()
    }

    /// A copy of the binding at `i`, in insertion order.
    pub fn pair(&self, i: usize) -> (r: (String, String))
        requires
            i < self@.len(),
        ensures
            (r.0@, r.1@) == self@[i as int],
    {
        let p = &self.entries[i];
        (p.0.clone(), p.1.clone())
    }

    /// The first value bound to `name`, or `None`.
    pub fn get(&self, name: &str) -> (r: Option<String>)
        ensures
            match r {
                Some(v) => pairs_get(self@, name@) == Some(v@),
                None => pairs_get(self@, name@) is None,
            },
    {
        let ghost pv = self@;
        let n = self.entries.len();
        let mut i: usize = 0;
        proof {
            assert(pv.skip(0) =~= pv);
        }
        while i < n
            invariant
                i <= n,
                n == self.entries@.len(),
                pv == self@,
                pairs_get(pv, name@) == pairs_get(pv.skip(i as int), name@),
            decreases n - i,
        {
            proof {
                let p = self.entries@[i as int];
                assert(pv.skip(i as int)[0] == (p.0@, p.1@));
                assert(pv.skip(i as int).drop_first() =~= pv.skip(i as int + 1));
            }
            if str_eq(self.entries[i].0.as_str(), name) {
                return Some(self.entries[i].1.clone());
            }
            i += 1;
        }
        proof {
            assert(pv.skip(n as int) =~= Seq::<(Seq<char>, Seq<char>)>::empty());
        }
        None
    }

    /// The position of the first binding of `name`, if any.
    fn find(&self, name: &str) -> (r: Option<usize>)
        ensures
            match r {
                Some(i) => i < self@.len() && self@[i as int].0 == name@ && (forall|j: int|
                    0 <= j < i ==> self@[j].0 != name@),
                None => forall|j: int| 0 <= j < self@.len() ==> self@[j].0 != name@,
            },
    {
        let n = self.entries.len();
        let mut i: usize = 0;
        while i < n
            invariant
                i <= n,
                n == self.entries@.len(),
                forall|j: int| 0 <= j < i ==> self@[j].0 != name@,
            decreases n - i,
        {
            if str_eq(self.entries[i].0.as_str(), name) {
                return Some(i);
            }
            i += 1;
        }
        None
    }

    /// Bind `name` to `value`: the first binding of `name` keeps its
    /// place and changes its value; a new name goes to the end.
    pub fn set(&mut self, name: String, value: String)
        ensures
            final(self)@ == scope_set(old(self)@, name@, value@),
            old(self).wf() ==> final(self).wf(),
    {
        let ghost pv = self@;
        let ghost nm = name@;
        let ghost vl = value@;
        proof {
            if scope_distinct(pv) {
                lemma_scope_set_distinct(pv, nm, vl);
            }
        }
        match self.find(name.as_str()) {
            Some(i) => {
                proof {
                    lemma_scope_set_update(pv, i as int, nm, vl);
                }
                let _ = self.entries.remove(i);
                self.entries.insert(i, (name, value));
                proof {
                    assert(self@ =~= pv.update(i as int, (nm, vl)));
                }
            },
            None => {
                proof {
                    lemma_scope_set_append(pv, nm, vl);
                }
                self.entries.push((name, value));
                proof {
                    assert(self@ =~= pv.push((nm, vl)));
                }
            },
        }
    }

    /// An identical copy.
    pub fn duplicate(&self) -> (r: Scope)
        ensures
            r@ == self@,
    {
        let n = self.entries.len();
        let mut entries: Vec<(String, String)> = Vec::new();
        let mut i: usize = 0;
        while i < n
            invariant
                i <= n,
                n == self.entries@.len(),
                entries@.len() == i,
                forall|j: int| 0 <= j < i ==> (#[trigger] entries@[j].0@, entries@[j].1@)
                    == self@[j],
            decreases n - i,
        {
            let ghost before = entries@;
            let p = &self.entries[i];
            entries.push((p.0.clone(), p.1.clone()));
            i += 1;
            proof {
                assert forall|j: int|
                    0 <= j < i implies (#[trigger] entries@[j].0@, entries@[j].1@) == self@[j] by {
                    if j < i - 1 {
                        assert(entries@[j] == before[j]);
                        assert((before[j].0@, before[j].1@) == self@[j]);
                    } else {
                        assert(entries@[j] == self.entries@[j]);
                        assert(self@[j] == (self.entries@[j].0@, self.entries@[j].1@));
                    }
                }
            }
        }
        let r = Scope { entries };
        proof {
            assert(r@ =~= self@);
        }
        r
    }
}

// ---------------------------------------------------------------------
// The mathematical evaluator
// ---------------------------------------------------------------------

/// The binding of `name` in the provider mapping, or `None`.
pub open spec fn env_get(env: Map<Seq<char>, Seq<char>>, name: Seq<char>) -> Option<Seq<char>> {
    if env.contains_key(name) {
        Some(env[name])
    } else {
        None
    }
}

/// Name resolution inside expansions: with `override_env`, bindings made
/// in this run win; without it, the provider wins.
pub open spec fn spec_lookup(
    env: Map<Seq<char>, Seq<char>>,
    scope: Seq<(Seq<char>, Seq<char>)>,
    override_env: bool,
    name: Seq<char>,
) -> Option<Seq<char>> {
    if override_env {
        match pairs_get(scope, name) {
            Some(v) => Some(v),
            None => env_get(env, name),
        }
    } else {
        match env_get(env, name) {
            Some(v) => Some(v),
            None => pairs_get(scope, name),
        }
    }
}

/// Evaluate a sequence of expressions: the concatenation of their
/// values, threading assign-side-effects through the scope in order.
pub open spec fn sp_eval_exprs(
    es: Seq<SpecExpression>,
    env: Map<Seq<char>, Seq<char>>,
    scope: Seq<(Seq<char>, Seq<char>)>,
    override_env: bool,
) -> Result<(Seq<char>, Seq<(Seq<char>, Seq<char>)>), SpecEvalError>
    decreases es,
{
    if es.len() == 0 {
        Ok((Seq::empty(), scope))
    } else {
        match sp_eval_expr(es[0], env, scope, override_env) {
            Ok((v, s1)) => match sp_eval_exprs(es.drop_first(), env, s1, override_env) {
                Ok((v2, s2)) => Ok((v + v2, s2)),
                Err(e) => Err(e),
            },
            Err(e) => Err(e),
        }
    }
}

/// Evaluate one expression: characters are themselves; an expansion is
/// resolved by its operator.
pub open spec fn sp_eval_expr(
    e: SpecExpression,
    env: Map<Seq<char>, Seq<char>>,
    scope: Seq<(Seq<char>, Seq<char>)>,
    override_env: bool,
) -> Result<(Seq<char>, Seq<(Seq<char>, Seq<char>)>), SpecEvalError>
    decreases e,
{
    match e {
        SpecExpression::Characters(s) => Ok((s, scope)),
        SpecExpression::Expansion(x) => sp_eval_expansion(x, env, scope, override_env),
    }
}

/// Evaluate `${name op rhs}`, per operator and per the looked-up value
/// being absent, empty, or non-empty.
pub open spec fn sp_eval_expansion(
    x: SpecExpansion,
    env: Map<Seq<char>, Seq<char>>,
    scope: Seq<(Seq<char>, Seq<char>)>,
    override_env: bool,
) -> Result<(Seq<char>, Seq<(Seq<char>, Seq<char>)>), SpecEvalError>
    decreases x,
{
    let v = spec_lookup(env, scope, override_env, x.name);
    match x.operator {
        Operator::IfUnset => match v {
            None => sp_eval_exprs(x.rhs, env, scope, override_env),
            Some(val) => Ok((val, scope)),
        },
        Operator::IfUnsetOrNull => match v {
            None => sp_eval_exprs(x.rhs, env, scope, override_env),
            Some(val) => if val.len() == 0 {
                sp_eval_exprs(x.rhs, env, scope, override_env)
            } else {
                Ok((val, scope))
            },
        },
        Operator::IfSet => match v {
            None => Ok((Seq::empty(), scope)),
            Some(_) => sp_eval_exprs(x.rhs, env, scope, override_env),
        },
        Operator::IfSetAndNotNull => match v {
            None => Ok((Seq::empty(), scope)),
            Some(val) => if val.len() == 0 {
                Ok((Seq::empty(), scope))
            } else {
                sp_eval_exprs(x.rhs, env, scope, override_env)
            },
        },
        Operator::AssignIfUnset => match v {
            None => sp_assign_op(x, env, scope, override_env),
            Some(val) => Ok((val, scope)),
        },
        Operator::AssignIfUnsetOrNull => match v {
            None => sp_assign_op(x, env, scope, override_env),
            Some(val) => if val.len() == 0 {
                sp_assign_op(x, env, scope, override_env)
            } else {
                Ok((val, scope))
            },
        },
        Operator::ErrorIfUnset => match v {
            None => sp_error_op(x, env, scope, override_env, false),
            Some(val) => Ok((val, scope)),
        },
        Operator::ErrorIfUnsetOrNull => match v {
            None => sp_error_op(x, env, scope, override_env, false),
            Some(val) => if val.len() == 0 {
                sp_error_op(x, env, scope, override_env, true)
            } else {
                Ok((val, scope))
            },
        },
    }
}

/// Evaluate the right-hand side, bind the name to the result in the
/// scope, and yield the result. The binding never reaches the provider.
pub open spec fn sp_assign_op(
    x: SpecExpansion,
    env: Map<Seq<char>, Seq<char>>,
    scope: Seq<(Seq<char>, Seq<char>)>,
    override_env: bool,
) -> Result<(Seq<char>, Seq<(Seq<char>, Seq<char>)>), SpecEvalError>
    decreases x, 0nat,
{
    match sp_eval_exprs(x.rhs, env, scope, override_env) {
        Ok((val, s1)) => Ok((val, scope_set(s1, x.name, val))),
        Err(e) => Err(e),
    }
}

/// Evaluate the right-hand side as the error message, then fail:
/// `EmptyValue` when the variable was present but empty,
/// `UndefinedVariable` when it was absent.
pub open spec fn sp_error_op(
    x: SpecExpansion,
    env: Map<Seq<char>, Seq<char>>,
    scope: Seq<(Seq<char>, Seq<char>)>,
    override_env: bool,
    require_value: bool,
) -> Result<(Seq<char>, Seq<(Seq<char>, Seq<char>)>), SpecEvalError>
    decreases x, 0nat,
{
    match sp_eval_exprs(x.rhs, env, scope, override_env) {
        Ok((msg, _)) => if require_value {
            Err(SpecEvalError::EmptyValue(x.name, msg))
        } else {
            Err(SpecEvalError::UndefinedVariable(x.name, msg))
        },
        Err(e) => Err(e),
    }
}

/// Evaluate one assignment. Without `override_env` a name the provider
/// already holds takes the provider's value and the expression is not
/// evaluated: its side effects do not fire and its errors are
/// suppressed.
pub open spec fn sp_eval_assignment(
    a: SpecAssignment,
    env: Map<Seq<char>, Seq<char>>,
    scope: Seq<(Seq<char>, Seq<char>)>,
    override_env: bool,
) -> Result<Seq<(Seq<char>, Seq<char>)>, SpecEvalError> {
    if override_env {
        match sp_eval_exprs(a.value, env, scope, true) {
            Ok((v, s1)) => Ok(scope_set(s1, a.name, v)),
            Err(e) => Err(e),
        }
    } else {
        match env_get(env, a.name) {
            Some(v) => Ok(scope_set(scope, a.name, v)),
            None => match sp_eval_exprs(a.value, env, scope, false) {
                Ok((v, s1)) => Ok(scope_set(s1, a.name, v)),
                Err(e) => Err(e),
            },
        }
    }
}

/// Evaluate a file's assignments in source order.
pub open spec fn sp_evaluate(
    ast: Seq<SpecAssignment>,
    env: Map<Seq<char>, Seq<char>>,
    scope: Seq<(Seq<char>, Seq<char>)>,
    override_env: bool,
) -> Result<Seq<(Seq<char>, Seq<char>)>, SpecEvalError>
    decreases ast.len(),
{
    if ast.len() == 0 {
        Ok(scope)
    } else {
        match sp_eval_assignment(ast[0], env, scope, override_env) {
            Ok(s1) => sp_evaluate(ast.drop_first(), env, s1, override_env),
            Err(e) => Err(e),
        }
    }
}


// ---------------------------------------------------------------------
// The executable evaluator
// ---------------------------------------------------------------------

/// The evaluator: resolves assignments against the injected provider
/// (read-only) and the bindings accumulated so far.
pub struct Evaluator<'a, T: EnvProvider> {
    env: &'a T,
    scope: Scope,
    override_env: bool,
}

impl<'a, T: EnvProvider> Evaluator<'a, T> {
    /// The provider mapping.
    pub closed spec fn env_map(&self) -> Map<Seq<char>, Seq<char>> {
        self.env.env()
    }

    /// The bindings accumulated so far.
    pub closed spec fn scope_view(&self) -> Seq<(Seq<char>, Seq<char>)> {
        self.scope@
    }

    /// Whether file values win over provider values.
    pub closed spec fn ov(&self) -> bool {
        self.override_env
    }

    pub fn new(env: &'a T, override_env: bool) -> (r: Self)
        ensures
            r.env_map() == env.env(),
            r.ov() == override_env,
            r.scope_view() == Seq::<(Seq<char>, Seq<char>)>::empty(),
    {
        Evaluator { env, scope: Scope::new(), override_env }
    }

    /// The accumulated bindings, consuming the evaluator.
    pub fn into_env(self) -> (r: Scope)
        ensures
            r@ == self.scope_view(),
    {
        self.scope
    }

    /// A copy of the accumulated bindings.
    pub fn scope(&self) -> (r: Scope)
        ensures
            r@ == self.scope_view(),
    {
        self.scope.duplicate()
    }

    /// Resolve a name: with `override_env`, scope first, then provider;
    /// otherwise provider first, then scope.
    fn resolve(&self, name: &String) -> (r: Option<String>)
        ensures
            match r {
                Some(v) => spec_lookup(self.env_map(), self.scope_view(), self.ov(), name@)
                    == Some(v@),
                None => spec_lookup(self.env_map(), self.scope_view(), self.ov(), name@) is None,
            },
    {
        if self.override_env {
            match self.scope.get(name.as_str()) {
                Some(v) => Some(v),
                None => self.env.var(name.as_str()),
            }
        } else {
            match self.env.var(name.as_str()) {
                Some(v) => Some(v),
                None => self.scope.get(name.as_str()),
            }
        }
    }

    /// Evaluate a sequence of expressions: the concatenation of their
    /// values, in order.
    fn evaluate_expression(&mut self, nodes: &Vec<Expression>) -> (r: Result<
        String,
        EvaluationError,
    >)
        ensures
            final(self).env_map() == old(self).env_map(),
            final(self).ov() == old(self).ov(),
            scope_distinct(old(self).scope_view()) ==> scope_distinct(final(self).scope_view()),
            match r {
                Ok(s) => sp_eval_exprs(
                    exprs_view(nodes@),
                    old(self).env_map(),
                    old(self).scope_view(),
                    old(self).ov(),
                ) == Ok::<_, SpecEvalError>((s@, final(self).scope_view())),
                Err(e) => sp_eval_exprs(
                    exprs_view(nodes@),
                    old(self).env_map(),
                    old(self).scope_view(),
                    old(self).ov(),
                ) == Err::<(Seq<char>, Seq<(Seq<char>, Seq<char>)>), _>(e@),
            },
        decreases nodes@, 0nat,
    {
        let ghost env0 = self.env_map();
        let ghost ov0 = self.ov();
        let ghost scope0 = self.scope_view();
        let ghost esv = exprs_view(nodes@);
        let mut result = String::new();
        let n = nodes.len();
        let mut i: usize = 0;
        proof {
            lemma_exprs_view_len(nodes@);
            assert(esv.skip(0) =~= esv);
        }
        #[verifier::loop_isolation(false)]
        while i < n
            invariant
                i <= n,
                n == nodes@.len(),
                esv.len() == n,
                self.env_map() == env0,
                self.ov() == ov0,
                scope_distinct(scope0) ==> scope_distinct(self.scope_view()),
                match sp_eval_exprs(esv.skip(i as int), env0, self.scope_view(), ov0) {
                    Ok((v2, s2)) => sp_eval_exprs(esv, env0, scope0, ov0)
                        == Ok::<_, SpecEvalError>((result@ + v2, s2)),
                    Err(e2) => sp_eval_exprs(esv, env0, scope0, ov0) == Err::<
                        (Seq<char>, Seq<(Seq<char>, Seq<char>)>),
                        _,
                    >(e2),
                },
            decreases n - i,
        {
            proof {
                lemma_exprs_view_index(nodes@, i as int);
                assert(esv.skip(i as int)[0] == esv[i as int]);
                assert(esv.skip(i as int).drop_first() =~= esv.skip(i as int + 1));
            }
            let ghost r0 = result@;
            let node = &nodes[i];
            match node {
                Expression::Characters(cs) => {
                    result.append(cs.as_str());
                    proof {
                        match sp_eval_exprs(esv.skip(i as int + 1), env0, self.scope_view(), ov0) {
                            Ok((v2, s2)) => {
                                assert((r0 + cs@) + v2 =~= r0 + (cs@ + v2));
                            },
                            Err(_) => {},
                        }
                    }
                },
                Expression::Expansion(x) => {
                    let ghost sc_pre = self.scope_view();
                    match self.evaluate_expansion(x) {
                        Ok(v) => {
                            result.append(v.as_str());
                            proof {
                                match sp_eval_exprs(
                                    esv.skip(i as int + 1),
                                    env0,
                                    self.scope_view(),
                                    ov0,
                                ) {
                                    Ok((v2, s2)) => {
                                        assert((r0 + v@) + v2 =~= r0 + (v@ + v2));
                                    },
                                    Err(_) => {},
                                }
                            }
                        },
                        Err(e) => {
                            proof {
                                assert(esv[i as int] == SpecExpression::Expansion(
                                    expansion_view(*x),
                                ));
                                assert(sp_eval_expansion(expansion_view(*x), env0, sc_pre, ov0)
                                    == Err::<(Seq<char>, Seq<(Seq<char>, Seq<char>)>), _>(e@));
                                assert(sp_eval_expr(esv[i as int], env0, sc_pre, ov0) == Err::<
                                    (Seq<char>, Seq<(Seq<char>, Seq<char>)>),
                                    _,
                                >(e@));
                                assert(sp_eval_exprs(esv.skip(i as int), env0, sc_pre, ov0)
                                    == Err::<(Seq<char>, Seq<(Seq<char>, Seq<char>)>), _>(e@));
                            }
                            return Err(e);
                        },
                    }
                },
            }
            i += 1;
        }
        proof {
            assert(esv.skip(n as int) =~= Seq::<SpecExpression>::empty());
            assert(result@ + Seq::<char>::empty() =~= result@);
        }
        Ok(result)
    }

    /// Evaluate one expansion, per its operator and per the looked-up
    /// value being absent, empty, or non-empty.
    fn evaluate_expansion(&mut self, x: &Expansion) -> (r: Result<String, EvaluationError>)
        ensures
            final(self).env_map() == old(self).env_map(),
            final(self).ov() == old(self).ov(),
            scope_distinct(old(self).scope_view()) ==> scope_distinct(final(self).scope_view()),
            match r {
                Ok(s) => sp_eval_expansion(
                    expansion_view(*x),
                    old(self).env_map(),
                    old(self).scope_view(),
                    old(self).ov(),
                ) == Ok::<_, SpecEvalError>((s@, final(self).scope_view())),
                Err(e) => sp_eval_expansion(
                    expansion_view(*x),
                    old(self).env_map(),
                    old(self).scope_view(),
                    old(self).ov(),
                ) == Err::<(Seq<char>, Seq<(Seq<char>, Seq<char>)>), _>(e@),
            },
        decreases *x, 0nat,
    {
        let value = self.resolve(&x.name);
        match x.operator {
            Operator::IfUnset => match value {
                None => self.evaluate_expression(&x.rhs),
                Some(v) => Ok(v),
            },
            Operator::IfUnsetOrNull => match value {
                None => self.evaluate_expression(&x.rhs),
                Some(v) => if v.as_str().unicode_len() == 0 {
                    self.evaluate_expression(&x.rhs)
                } else {
                    Ok(v)
                },
            },
            Operator::IfSet => match value {
                None => Ok(String::new()),
                Some(_) => self.evaluate_expression(&x.rhs),
            },
            Operator::IfSetAndNotNull => match value {
                None => Ok(String::new()),
                Some(v) => if v.as_str().unicode_len() == 0 {
                    Ok(String::new())
                } else {
                    self.evaluate_expression(&x.rhs)
                },
            },
            Operator::AssignIfUnset => match value {
                None => self.assign_op(&x.name, &x.rhs),
                Some(v) => Ok(v),
            },
            Operator::AssignIfUnsetOrNull => match value {
                None => self.assign_op(&x.name, &x.rhs),
                Some(v) => if v.as_str().unicode_len() == 0 {
                    self.assign_op(&x.name, &x.rhs)
                } else {
                    Ok(v)
                },
            },
            Operator::ErrorIfUnset => match value {
                None => self.error_op(&x.name, &x.rhs, false),
                Some(v) => Ok(v),
            },
            Operator::ErrorIfUnsetOrNull => match value {
                None => self.error_op(&x.name, &x.rhs, false),
                Some(v) => if v.as_str().unicode_len() == 0 {
                    self.error_op(&x.name, &x.rhs, true)
                } else {
                    Ok(v)
                },
            },
        }
    }

    /// Evaluate the right-hand side, bind the name to the result, and
    /// yield the result. The binding never reaches the provider.
    fn assign_op(&mut self, name: &String, rhs: &Vec<Expression>) -> (r: Result<
        String,
        EvaluationError,
    >)
        ensures
            final(self).env_map() == old(self).env_map(),
            final(self).ov() == old(self).ov(),
            scope_distinct(old(self).scope_view()) ==> scope_distinct(final(self).scope_view()),
            match r {
                Ok(s) => match sp_eval_exprs(
                    exprs_view(rhs@),
                    old(self).env_map(),
                    old(self).scope_view(),
                    old(self).ov(),
                ) {
                    Ok((val, s1)) => s@ == val && final(self).scope_view() == scope_set(
                        s1,
                        name@,
                        val,
                    ),
                    Err(_) => false,
                },
                Err(e) => sp_eval_exprs(
                    exprs_view(rhs@),
                    old(self).env_map(),
                    old(self).scope_view(),
                    old(self).ov(),
                ) == Err::<(Seq<char>, Seq<(Seq<char>, Seq<char>)>), _>(e@),
            },
        decreases rhs@, 1nat,
    {
        match self.evaluate_expression(rhs) {
            Ok(value) => {
                self.scope.set(name.clone(), value.clone());
                Ok(value)
            },
            Err(e) => Err(e),
        }
    }

    /// Evaluate the right-hand side as the error message, then fail.
    fn error_op(&mut self, name: &String, rhs: &Vec<Expression>, require_value: bool) -> (r: Result<
        String,
        EvaluationError,
    >)
        ensures
            final(self).env_map() == old(self).env_map(),
            final(self).ov() == old(self).ov(),
            scope_distinct(old(self).scope_view()) ==> scope_distinct(final(self).scope_view()),
            match r {
                Ok(_) => false,
                Err(e) => match sp_eval_exprs(
                    exprs_view(rhs@),
                    old(self).env_map(),
                    old(self).scope_view(),
                    old(self).ov(),
                ) {
                    Ok((msg, _)) => e@ == (if require_value {
                        SpecEvalError::EmptyValue(name@, msg)
                    } else {
                        SpecEvalError::UndefinedVariable(name@, msg)
                    }),
                    Err(e2) => e@ == e2,
                },
            },
        decreases rhs@, 1nat,
    {
        match self.evaluate_expression(rhs) {
            Ok(message) => {
                if require_value {
                    Err(EvaluationError::EmptyValue(name.clone(), message))
                } else {
                    Err(EvaluationError::UndefinedVariable(name.clone(), message))
                }
            },
            Err(e) => Err(e),
        }
    }

    /// Evaluate one assignment. Without `override_env` a name the
    /// provider already holds takes the provider's value; the expression
    /// is not evaluated.
    fn evaluate_assignment(&mut self, node: Assignment) -> (r: Result<(), EvaluationError>)
        ensures
            final(self).env_map() == old(self).env_map(),
            final(self).ov() == old(self).ov(),
            scope_distinct(old(self).scope_view()) ==> scope_distinct(final(self).scope_view()),
            match r {
                Ok(_) => sp_eval_assignment(
                    assignment_view(node),
                    old(self).env_map(),
                    old(self).scope_view(),
                    old(self).ov(),
                ) == Ok::<_, SpecEvalError>(final(self).scope_view()),
                Err(e) => sp_eval_assignment(
                    assignment_view(node),
                    old(self).env_map(),
                    old(self).scope_view(),
                    old(self).ov(),
                ) == Err::<Seq<(Seq<char>, Seq<char>)>, _>(e@),
            },
    {
        if self.override_env {
            match self.evaluate_expression(&node.value) {
                Ok(v) => {
                    self.scope.set(node.name, v);
                    Ok(())
                },
                Err(e) => Err(e),
            }
        } else {
            match self.env.var(node.name.as_str()) {
                Some(v) => {
                    self.scope.set(node.name, v);
                    Ok(())
                },
                None => match self.evaluate_expression(&node.value) {
                    Ok(v) => {
                        self.scope.set(node.name, v);
                        Ok(())
                    },
                    Err(e) => Err(e),
                },
            }
        }
    }

    /// Evaluate a file's assignments in source order. Errors abort at
    /// the first failing assignment.
    pub fn evaluate(&mut self, ast: Vec<Assignment>) -> (r: Result<(), EvaluationError>)
        ensures
            final(self).env_map() == old(self).env_map(),
            final(self).ov() == old(self).ov(),
            scope_distinct(old(self).scope_view()) ==> scope_distinct(final(self).scope_view()),
            match r {
                Ok(_) => sp_evaluate(
                    assignments_view(ast@),
                    old(self).env_map(),
                    old(self).scope_view(),
                    old(self).ov(),
                ) == Ok::<_, SpecEvalError>(final(self).scope_view()),
                Err(e) => sp_evaluate(
                    assignments_view(ast@),
                    old(self).env_map(),
                    old(self).scope_view(),
                    old(self).ov(),
                ) == Err::<Seq<(Seq<char>, Seq<char>)>, _>(e@),
            },
    {
        let ghost env0 = self.env_map();
        let ghost ov0 = self.ov();
        let ghost scope0 = self.scope_view();
        let ghost av = assignments_view(ast@);
        let mut rest = ast;
        #[verifier::loop_isolation(false)]
        loop
            invariant
                self.env_map() == env0,
                self.ov() == ov0,
                scope_distinct(scope0) ==> scope_distinct(self.scope_view()),
                match sp_evaluate(assignments_view(rest@), env0, self.scope_view(), ov0) {
                    Ok(s) => sp_evaluate(av, env0, scope0, ov0) == Ok::<_, SpecEvalError>(s),
                    Err(e2) => sp_evaluate(av, env0, scope0, ov0) == Err::<
                        Seq<(Seq<char>, Seq<char>)>,
                        _,
                    >(e2),
                },
            decreases rest@.len(),
        {
            if rest.len() == 0 {
                return Ok(());
            }
            let ghost rest0 = rest@;
            let node = rest.remove(0);
            proof {
                assert(assignments_view(rest@) =~= assignments_view(rest0).drop_first());
            }
            match self.evaluate_assignment(node) {
                Ok(_) => {},
                Err(e) => {
                    return Err(e);
                },
            }
        }
    }
}

} // verus!
