//! Laws of the library, stated over the mathematical pipeline and
//! proved: what the substitution operators yield, how the override flag
//! decides precedence, that assignment side effects are visible, that
//! evaluation is repeatable, and what the tokenizer does on plain
//! values, single-quoted literals, and unterminated quotes.

use vstd::prelude::*;

use crate::ast::{Operator, SpecAssignment, SpecExpansion, SpecExpression};
use crate::env::pairs_get;
use crate::evaluator::{
    env_get, lemma_scope_set_get, scope_set, sp_assign_op, sp_error_op, sp_eval_assignment,
    sp_eval_expansion, sp_eval_expr, sp_eval_exprs, sp_evaluate, spec_lookup, SpecEvalError,
};
use crate::err::{SpecErrorKind, SpecSyntaxError};
use crate::parser::{
    initial_parse, parse_run, parse_step, spec_parse, spec_parse_input, Parse, ParseStep,
    SpecParseError,
};
use crate::token::{SpecPos, SpecToken, TokenKind};
use crate::tokenizer::{
    initial_lex, lex_advance, lex_buffer, lex_char, lex_emit_eof, lex_flush, lex_pop_ret, lex_run,
    spec_is_identifier_char, spec_is_identifier_start, spec_is_shell_special_char, spec_is_wsnl,
    spec_tokenize, Lex, LexState, LexStep,
};
use crate::{sp_eval_files, SpecPotenvError};

verus! {

/// The eight operators behave per the substitution table, for every
/// looked-up state (absent, empty, non-empty) and every right-hand
/// side: the dash family falls back to the right-hand side, the plus
/// family inverts it, the assign family also binds the name, and the
/// query family raises.
pub proof fn lemma_operator_table(
    x: SpecExpansion,
    env: Map<Seq<char>, Seq<char>>,
    scope: Seq<(Seq<char>, Seq<char>)>,
    ov: bool,
)
    ensures
        ({
            let v = spec_lookup(env, scope, ov, x.name);
            let r = sp_eval_expansion(x, env, scope, ov);
            let rhs = sp_eval_exprs(x.rhs, env, scope, ov);
            &&& (v is None ==> r == (match x.operator {
                Operator::IfUnset => rhs,
                Operator::IfUnsetOrNull => rhs,
                Operator::IfSet => Ok((Seq::<char>::empty(), scope)),
                Operator::IfSetAndNotNull => Ok((Seq::<char>::empty(), scope)),
                Operator::AssignIfUnset => sp_assign_op(x, env, scope, ov),
                Operator::AssignIfUnsetOrNull => sp_assign_op(x, env, scope, ov),
                Operator::ErrorIfUnset => sp_error_op(x, env, scope, ov, false),
                Operator::ErrorIfUnsetOrNull => sp_error_op(x, env, scope, ov, false),
            }))
            &&& (v == Some(Seq::<char>::empty()) ==> r == (match x.operator {
                Operator::IfUnset => Ok((Seq::<char>::empty(), scope)),
                Operator::IfUnsetOrNull => rhs,
                Operator::IfSet => rhs,
                Operator::IfSetAndNotNull => Ok((Seq::<char>::empty(), scope)),
                Operator::AssignIfUnset => Ok((Seq::<char>::empty(), scope)),
                Operator::AssignIfUnsetOrNull => sp_assign_op(x, env, scope, ov),
                Operator::ErrorIfUnset => Ok((Seq::<char>::empty(), scope)),
                Operator::ErrorIfUnsetOrNull => sp_error_op(x, env, scope, ov, true),
            }))
            &&& (match v {
                Some(val) => val.len() > 0 ==> r == (match x.operator {
                    Operator::IfUnset => Ok((val, scope)),
                    Operator::IfUnsetOrNull => Ok((val, scope)),
                    Operator::IfSet => rhs,
                    Operator::IfSetAndNotNull => rhs,
                    Operator::AssignIfUnset => Ok((val, scope)),
                    Operator::AssignIfUnsetOrNull => Ok((val, scope)),
                    Operator::ErrorIfUnset => Ok((val, scope)),
                    Operator::ErrorIfUnsetOrNull => Ok((val, scope)),
                }),
                None => true,
            })
        }),
{
}

/// With `override_env` off, a name the provider holds short-circuits
/// the whole assignment: the expression is not evaluated, so its side
/// effects do not fire and its errors are suppressed, and the scope
/// takes the provider's value — whatever the expression was.
pub proof fn lemma_provider_shortcircuit(
    a: SpecAssignment,
    env: Map<Seq<char>, Seq<char>>,
    scope: Seq<(Seq<char>, Seq<char>)>,
)
    requires
        env.contains_key(a.name),
    ensures
        sp_eval_assignment(a, env, scope, false) == Ok::<_, SpecEvalError>(
            scope_set(scope, a.name, env[a.name]),
        ),
{
}

/// Override precedence: evaluating `K=x` (a literal value) with the
/// provider holding `K = p` binds `K` to `p` when `override_env` is
/// off, and to `x` when it is on.
pub proof fn lemma_override_precedence(
    name: Seq<char>,
    x: Seq<char>,
    p: Seq<char>,
    env: Map<Seq<char>, Seq<char>>,
    scope: Seq<(Seq<char>, Seq<char>)>,
)
    requires
        env.contains_key(name),
        env[name] == p,
    ensures
        ({
            let a = SpecAssignment { name, value: seq![SpecExpression::Characters(x)] };
            &&& sp_eval_assignment(a, env, scope, false) == Ok::<_, SpecEvalError>(
                scope_set(scope, name, p),
            )
            &&& sp_eval_assignment(a, env, scope, true) == Ok::<_, SpecEvalError>(
                scope_set(scope, name, x),
            )
        }),
{
    let a = SpecAssignment { name, value: seq![SpecExpression::Characters(x)] };
    assert(a.value.drop_first() =~= Seq::<SpecExpression>::empty());
    assert(a.value[0] == SpecExpression::Characters(x));
    assert(x + Seq::<char>::empty() =~= x);
    assert(sp_eval_exprs(Seq::<SpecExpression>::empty(), env, scope, true)
        == Ok::<_, SpecEvalError>((Seq::<char>::empty(), scope)));
    assert(sp_eval_expr(SpecExpression::Characters(x), env, scope, true)
        == Ok::<_, SpecEvalError>((x, scope)));
    assert(sp_eval_exprs(a.value, env, scope, true) == Ok::<_, SpecEvalError>((x, scope)));
    assert(sp_eval_assignment(a, env, scope, true) == Ok::<_, SpecEvalError>(
        scope_set(scope, name, x),
    ));
    assert(env_get(env, name) == Some(p));
    assert(sp_eval_assignment(a, env, scope, false) == Ok::<_, SpecEvalError>(
        scope_set(scope, name, p),
    ));
}

/// An assign operator's side effect is visible: when `${name:=rhs}`
/// succeeds on an absent or empty variable, the scope it leaves behind
/// binds the name to exactly the value the expansion yielded.
pub proof fn lemma_assign_visibility(
    x: SpecExpansion,
    env: Map<Seq<char>, Seq<char>>,
    scope: Seq<(Seq<char>, Seq<char>)>,
    ov: bool,
)
    requires
        x.operator == Operator::AssignIfUnsetOrNull,
        spec_lookup(env, scope, ov, x.name) is None || spec_lookup(env, scope, ov, x.name)
            == Some(Seq::<char>::empty()),
        sp_eval_expansion(x, env, scope, ov) is Ok,
    ensures
        ({
            let (val, s1) = sp_eval_expansion(x, env, scope, ov)->Ok_0;
            pairs_get(s1, x.name) == Some(val)
        }),
{
    let (val, s1) = sp_eval_expansion(x, env, scope, ov)->Ok_0;
    match sp_eval_exprs(x.rhs, env, scope, ov) {
        Ok((v2, s2)) => {
            lemma_scope_set_get(s2, x.name, v2, x.name);
        },
        Err(_) => {},
    }
}

/// Evaluation is repeatable: it is a function of the file texts, the
/// provider mapping and the override flag alone, and `Potenv::evaluate`
/// never changes the provider (it reads it immutably and its contract
/// pins its result to `sp_eval_files` of the unchanged mapping), so two
/// runs against the same provider yield the same scope.
pub proof fn lemma_evaluation_repeatable(
    files: Seq<Seq<char>>,
    env: Map<Seq<char>, Seq<char>>,
    ov: bool,
    r1: Result<Seq<(Seq<char>, Seq<char>)>, SpecPotenvError>,
    r2: Result<Seq<(Seq<char>, Seq<char>)>, SpecPotenvError>,
)
    requires
        r1 == sp_eval_files(files, env, Seq::<(Seq<char>, Seq<char>)>::empty(), ov),
        r2 == sp_eval_files(files, env, Seq::<(Seq<char>, Seq<char>)>::empty(), ov),
    ensures
        r1 == r2,
{
}

// ---------------------------------------------------------------------
// Tokenizer laws
// ---------------------------------------------------------------------

/// A valid identifier: a letter or underscore, then letters, digits and
/// underscores.
pub open spec fn is_identifier(s: Seq<char>) -> bool {
    &&& s.len() > 0
    &&& spec_is_identifier_start(s[0])
    &&& forall|i: int| 0 < i < s.len() ==> spec_is_identifier_char(s[i])
}

/// A character that stands for itself in an unquoted value: no
/// whitespace, no quote, no escape, no expansion, no metacharacter.
pub open spec fn is_plain_value_char(c: char) -> bool {
    &&& !spec_is_wsnl(c)
    &&& !spec_is_shell_special_char(c)
    &&& c != '\\'
    &&& c != '\''
    &&& c != '"'
    &&& c != '$'
    &&& c != '`'
    &&& c != '\0'
}

/// The configuration after `NAME=` has been read: at the start of the
/// value, with the `Assign` token emitted.
pub open spec fn value_cfg(name: Seq<char>) -> Lex {
    Lex {
        state: LexState::AssignmentValue,
        ret: Seq::empty(),
        buf: Seq::empty(),
        buf_pos: SpecPos { line: 1, column: 1 },
        line: 1,
        column: name.len() + 1,
        squote: SpecPos { line: 0, column: 0 },
        dquotes: Seq::empty(),
        exps: Seq::empty(),
        out: seq![
            SpecToken { kind: TokenKind::Assign, value: name, pos: SpecPos { line: 1, column: 1 } },
        ],
    }
}

/// The configuration while the name is being read, `done` buffered.
spec fn name_cfg(done: Seq<char>) -> Lex {
    Lex {
        state: LexState::AssignmentName,
        ret: Seq::empty(),
        buf: done,
        buf_pos: SpecPos { line: 1, column: 1 },
        line: 1,
        column: done.len(),
        squote: SpecPos { line: 0, column: 0 },
        dquotes: Seq::empty(),
        exps: Seq::empty(),
        out: Seq::empty(),
    }
}

/// Scanning the rest of a name and its `=` lands the machine at the
/// start of the value with the `Assign` token emitted.
proof fn lemma_scan_name(done: Seq<char>, rest: Seq<char>, tail: Seq<char>)
    requires
        done.len() > 0,
        forall|i: int| 0 <= i < rest.len() ==> spec_is_identifier_char(#[trigger] rest[i]),
    ensures
        lex_run(name_cfg(done), rest + seq!['='] + tail) == lex_run(
            value_cfg(done + rest),
            tail,
        ),
    decreases rest.len(),
{
    if rest.len() == 0 {
        let input = rest + seq!['='] + tail;
        assert(input[0] == '=');
        assert(input.drop_first() =~= tail);
        let g1 = lex_advance(name_cfg(done), '=');
        match lex_char(g1, '=') {
            LexStep::Next(g2) => {
                assert(g2 =~= value_cfg(done + rest)) by {
                    assert(done + rest =~= done);
                }
            },
            _ => {},
        }
    } else {
        let c = rest[0];
        let input = rest + seq!['='] + tail;
        assert(input[0] == c);
        assert(input.drop_first() =~= rest.drop_first() + seq!['='] + tail);
        let g1 = lex_advance(name_cfg(done), c);
        match lex_char(g1, c) {
            LexStep::Next(g2) => {
                assert(g2 =~= name_cfg(done.push(c)));
            },
            _ => {},
        }
        assert(done.push(c) + rest.drop_first() =~= done + rest);
        lemma_scan_name(done.push(c), rest.drop_first(), tail);
    }
}

/// The value-state configuration with `done` characters buffered after
/// the name.
spec fn plain_value_cfg(name: Seq<char>, done: Seq<char>) -> Lex {
    Lex {
        state: LexState::AssignmentValue,
        ret: Seq::empty(),
        buf: done,
        buf_pos: if done.len() == 0 {
            SpecPos { line: 1, column: 1 }
        } else {
            SpecPos { line: 1, column: name.len() + 2 }
        },
        line: 1,
        column: name.len() + 1 + done.len(),
        squote: SpecPos { line: 0, column: 0 },
        dquotes: Seq::empty(),
        exps: Seq::empty(),
        out: seq![
            SpecToken { kind: TokenKind::Assign, value: name, pos: SpecPos { line: 1, column: 1 } },
        ],
    }
}

/// The `Assign` token of `NAME=`.
pub open spec fn tok_assign(name: Seq<char>) -> SpecToken {
    SpecToken { kind: TokenKind::Assign, value: name, pos: SpecPos { line: 1, column: 1 } }
}

/// The `Characters` token of a plain value, at the first value column.
pub open spec fn tok_plain_chars(name: Seq<char>, chars: Seq<char>) -> SpecToken {
    SpecToken {
        kind: TokenKind::Characters,
        value: chars,
        pos: SpecPos { line: 1, column: name.len() + 2 },
    }
}

/// The `Eof` token of `NAME=chars`, one past the last character.
pub open spec fn tok_plain_eof(name: Seq<char>, chars: Seq<char>) -> SpecToken {
    SpecToken {
        kind: TokenKind::Eof,
        value: Seq::empty(),
        pos: SpecPos { line: 1, column: name.len() + 2 + chars.len() },
    }
}

/// Scanning plain value characters to the end of input flushes them as
/// one `Characters` token and closes with `Eof`.
proof fn lemma_scan_plain_value(name: Seq<char>, done: Seq<char>, rest: Seq<char>)
    requires
        done.len() + rest.len() > 0,
        forall|i: int| 0 <= i < rest.len() ==> is_plain_value_char(#[trigger] rest[i]),
    ensures
        lex_run(plain_value_cfg(name, done), rest) == Ok::<_, SpecSyntaxError>(
            seq![tok_assign(name), tok_plain_chars(name, done + rest), tok_plain_eof(name, done + rest)],
        ),
    decreases rest.len(),
{
    if rest.len() == 0 {
        assert(lex_emit_eof(lex_flush(plain_value_cfg(name, done), TokenKind::Characters)) =~= seq![
            tok_assign(name),
            tok_plain_chars(name, done + rest),
            tok_plain_eof(name, done + rest),
        ]) by {
            assert(done + rest =~= done);
        }
    } else {
        let c = rest[0];
        let g1 = lex_advance(plain_value_cfg(name, done), c);
        match lex_char(g1, c) {
            LexStep::Next(g2) => {
                assert(g2 =~= plain_value_cfg(name, done.push(c)));
            },
            _ => {},
        }
        assert(done.push(c) + rest.drop_first() =~= done + rest);
        lemma_scan_plain_value(name, done.push(c), rest.drop_first());
    }
}

/// Starting the machine on `NAME=` followed by a tail reaches the value
/// state with the `Assign` token emitted.
proof fn lemma_start_assignment(name: Seq<char>, tail: Seq<char>)
    requires
        is_identifier(name),
    ensures
        lex_run(initial_lex(), name + seq!['='] + tail) == lex_run(value_cfg(name), tail),
{
    let input = name + seq!['='] + tail;
    assert(input[0] == name[0]);
    assert(input.drop_first() =~= name.drop_first() + seq!['='] + tail);
    let g1 = lex_advance(initial_lex(), name[0]);
    match lex_char(g1, name[0]) {
        LexStep::Next(g2) => {
            assert(g2 =~= name_cfg(seq![name[0]]));
        },
        _ => {},
    }
    assert(forall|i: int|
        0 <= i < name.drop_first().len() ==> spec_is_identifier_char(
            #[trigger] name.drop_first()[i],
        ));
    lemma_scan_name(seq![name[0]], name.drop_first(), tail);
    assert(seq![name[0]] + name.drop_first() =~= name);
}

/// Character conservation in plain values: tokenizing `NAME=chars` for
/// plain characters yields exactly `Assign(NAME)`, `Characters(chars)`,
/// `Eof`, each at its source position.
pub proof fn lemma_character_conservation_tokens(name: Seq<char>, chars: Seq<char>)
    requires
        is_identifier(name),
        chars.len() > 0,
        forall|i: int| 0 <= i < chars.len() ==> is_plain_value_char(#[trigger] chars[i]),
    ensures
        spec_tokenize(name + seq!['='] + chars) == Ok::<_, SpecSyntaxError>(
            seq![tok_assign(name), tok_plain_chars(name, chars), tok_plain_eof(name, chars)],
        ),
{
    lemma_start_assignment(name, chars);
    assert(value_cfg(name) =~= plain_value_cfg(name, Seq::empty()));
    lemma_scan_plain_value(name, Seq::empty(), chars);
    assert(Seq::<char>::empty() + chars =~= chars);
}

// ---------------------------------------------------------------------
// Parsing and evaluating one assignment
// ---------------------------------------------------------------------

/// Parsing `Assign(name) Characters(cs) Eof` yields one assignment with
/// one literal expression, whatever the token positions.
proof fn lemma_parse_assign_chars(t1: SpecToken, t2: SpecToken, t3: SpecToken)
    requires
        t1.kind == TokenKind::Assign,
        t2.kind == TokenKind::Characters,
        t3.kind == TokenKind::Eof,
    ensures
        spec_parse(seq![t1, t2, t3]) == Ok::<_, SpecParseError>(
            seq![
                SpecAssignment {
                    name: t1.value,
                    value: seq![SpecExpression::Characters(t2.value)],
                },
            ],
        ),
{
    let ts = seq![t1, t2, t3];
    let a = SpecAssignment { name: t1.value, value: seq![SpecExpression::Characters(t2.value)] };
    let p1v = Parse {
        done: Seq::empty(),
        cur: Some((t1.value, Seq::<SpecExpression>::empty())),
        stack: Seq::empty(),
        await_op: None,
    };
    let p2v = Parse {
        done: Seq::empty(),
        cur: Some((t1.value, seq![SpecExpression::Characters(t2.value)])),
        stack: Seq::empty(),
        await_op: None,
    };
    assert(ts.drop_first() =~= seq![t2, t3]);
    assert(seq![t2, t3].drop_first() =~= seq![t3]);
    match parse_step(p2v, t3) {
        ParseStep::Done(asts) => {
            assert(asts =~= seq![a]);
        },
        _ => {
            assert(false);
        },
    }
    assert(parse_run(p2v, seq![t3]) == Ok::<_, SpecParseError>(seq![a]));
    match parse_step(p1v, t2) {
        ParseStep::Next(p) => {
            assert(p =~= p2v) by {
                assert(Seq::<SpecExpression>::empty().push(SpecExpression::Characters(t2.value))
                    =~= seq![SpecExpression::Characters(t2.value)]);
            }
        },
        _ => {
            assert(false);
        },
    }
    assert(parse_run(p1v, seq![t2, t3]) == Ok::<_, SpecParseError>(seq![a]));
    match parse_step(initial_parse(), t1) {
        ParseStep::Next(p) => {
            assert(p =~= p1v);
        },
        _ => {
            assert(false);
        },
    }
    assert(parse_run(initial_parse(), ts) == Ok::<_, SpecParseError>(seq![a]));
}

/// Parsing `Assign(name) Eof` yields one assignment with an empty
/// value.
proof fn lemma_parse_assign_empty(t1: SpecToken, t3: SpecToken)
    requires
        t1.kind == TokenKind::Assign,
        t3.kind == TokenKind::Eof,
    ensures
        spec_parse(seq![t1, t3]) == Ok::<_, SpecParseError>(
            seq![SpecAssignment { name: t1.value, value: Seq::empty() }],
        ),
{
    let ts = seq![t1, t3];
    let a = SpecAssignment { name: t1.value, value: Seq::<SpecExpression>::empty() };
    let p1v = Parse {
        done: Seq::empty(),
        cur: Some((t1.value, Seq::<SpecExpression>::empty())),
        stack: Seq::empty(),
        await_op: None,
    };
    assert(ts.drop_first() =~= seq![t3]);
    match parse_step(p1v, t3) {
        ParseStep::Done(asts) => {
            assert(asts =~= seq![a]);
        },
        _ => {
            assert(false);
        },
    }
    assert(parse_run(p1v, seq![t3]) == Ok::<_, SpecParseError>(seq![a]));
    match parse_step(initial_parse(), t1) {
        ParseStep::Next(p) => {
            assert(p =~= p1v);
        },
        _ => {
            assert(false);
        },
    }
    assert(parse_run(initial_parse(), ts) == Ok::<_, SpecParseError>(seq![a]));
}

/// Evaluating the single assignment `name = [literal cs]` against an
/// empty provider binds `name` to `cs`, with either override setting.
proof fn lemma_eval_one_literal(name: Seq<char>, cs: Seq<char>, ov: bool)
    ensures
        sp_evaluate(
            seq![SpecAssignment { name, value: seq![SpecExpression::Characters(cs)] }],
            Map::empty(),
            Seq::empty(),
            ov,
        ) == Ok::<_, SpecEvalError>(seq![(name, cs)]),
{
    let env = Map::<Seq<char>, Seq<char>>::empty();
    let scope = Seq::<(Seq<char>, Seq<char>)>::empty();
    let a = SpecAssignment { name, value: seq![SpecExpression::Characters(cs)] };
    assert(a.value.drop_first() =~= Seq::<SpecExpression>::empty());
    assert(sp_eval_exprs(Seq::<SpecExpression>::empty(), env, scope, ov)
        == Ok::<_, SpecEvalError>((Seq::<char>::empty(), scope)));
    assert(sp_eval_expr(SpecExpression::Characters(cs), env, scope, ov)
        == Ok::<_, SpecEvalError>((cs, scope)));
    assert(cs + Seq::<char>::empty() =~= cs);
    assert(sp_eval_exprs(a.value, env, scope, ov) == Ok::<_, SpecEvalError>((cs, scope)));
    assert(scope_set(scope, name, cs) =~= seq![(name, cs)]);
    assert(sp_eval_assignment(a, env, scope, ov) == Ok::<_, SpecEvalError>(seq![(name, cs)]));
    assert(seq![a].drop_first() =~= Seq::<SpecAssignment>::empty());
    assert(sp_evaluate(Seq::<SpecAssignment>::empty(), env, seq![(name, cs)], ov)
        == Ok::<_, SpecEvalError>(seq![(name, cs)]));
    assert(sp_evaluate(seq![a], env, scope, ov) == Ok::<_, SpecEvalError>(seq![(name, cs)]));
}

/// Evaluating the single assignment `name = []` against an empty
/// provider binds `name` to the empty string.
proof fn lemma_eval_one_empty(name: Seq<char>, ov: bool)
    ensures
        sp_evaluate(
            seq![SpecAssignment { name, value: Seq::empty() }],
            Map::empty(),
            Seq::empty(),
            ov,
        ) == Ok::<_, SpecEvalError>(seq![(name, Seq::<char>::empty())]),
{
    let env = Map::<Seq<char>, Seq<char>>::empty();
    let scope = Seq::<(Seq<char>, Seq<char>)>::empty();
    let a = SpecAssignment { name, value: Seq::<SpecExpression>::empty() };
    assert(sp_eval_exprs(a.value, env, scope, ov) == Ok::<_, SpecEvalError>(
        (Seq::<char>::empty(), scope),
    ));
    assert(scope_set(scope, name, Seq::<char>::empty()) =~= seq![(name, Seq::<char>::empty())]);
    assert(sp_eval_assignment(a, env, scope, ov) == Ok::<_, SpecEvalError>(
        seq![(name, Seq::<char>::empty())],
    ));
    assert(seq![a].drop_first() =~= Seq::<SpecAssignment>::empty());
    assert(sp_evaluate(Seq::<SpecAssignment>::empty(), env, seq![(name, Seq::<char>::empty())], ov)
        == Ok::<_, SpecEvalError>(seq![(name, Seq::<char>::empty())]));
    assert(sp_evaluate(seq![a], env, scope, ov) == Ok::<_, SpecEvalError>(
        seq![(name, Seq::<char>::empty())],
    ));
}

/// One file whose pipeline yields one binding: lift a parse result and
/// an evaluation result through `sp_eval_files`.
proof fn lemma_eval_one_file(
    input: Seq<char>,
    ast: Seq<SpecAssignment>,
    result: Seq<(Seq<char>, Seq<char>)>,
    ov: bool,
)
    requires
        spec_parse_input(input) == Ok::<_, SpecParseError>(ast),
        sp_evaluate(ast, Map::empty(), Seq::empty(), ov) == Ok::<_, SpecEvalError>(result),
    ensures
        sp_eval_files(seq![input], Map::empty(), Seq::empty(), ov) == Ok::<_, SpecPotenvError>(
            result,
        ),
{
    assert(seq![input].drop_first() =~= Seq::<Seq<char>>::empty());
    assert(sp_eval_files(Seq::<Seq<char>>::empty(), Map::empty(), result, ov)
        == Ok::<_, SpecPotenvError>(result));
}

/// Character conservation in plain values: for `NAME=chars` with plain
/// characters, tokenization yields exactly `Assign(NAME)`,
/// `Characters(chars)`, `Eof`, and evaluation against an empty provider
/// yields the binding `NAME = chars`.
pub proof fn lemma_character_conservation(name: Seq<char>, chars: Seq<char>, ov: bool)
    requires
        is_identifier(name),
        chars.len() > 0,
        forall|i: int| 0 <= i < chars.len() ==> is_plain_value_char(#[trigger] chars[i]),
    ensures
        spec_tokenize(name + seq!['='] + chars) == Ok::<_, SpecSyntaxError>(
            seq![tok_assign(name), tok_plain_chars(name, chars), tok_plain_eof(name, chars)],
        ),
        sp_eval_files(seq![name + seq!['='] + chars], Map::empty(), Seq::empty(), ov)
            == Ok::<_, SpecPotenvError>(seq![(name, chars)]),
{
    let input = name + seq!['='] + chars;
    lemma_character_conservation_tokens(name, chars);
    lemma_parse_assign_chars(tok_assign(name), tok_plain_chars(name, chars), tok_plain_eof(name, chars));
    lemma_eval_one_literal(name, chars, ov);
    lemma_eval_one_file(
        input,
        seq![SpecAssignment { name, value: seq![SpecExpression::Characters(chars)] }],
        seq![(name, chars)],
        ov,
    );
}

// ---------------------------------------------------------------------
// Quoted literals and unterminated openers
// ---------------------------------------------------------------------

/// Advance over and buffer a run of characters, one by one.
pub open spec fn lex_absorb(g: Lex, cs: Seq<char>) -> Lex
    decreases cs.len(),
{
    if cs.len() == 0 {
        g
    } else {
        lex_absorb(lex_buffer(lex_advance(g, cs[0]), cs[0]), cs.drop_first())
    }
}

/// Absorbing characters only moves the position and grows the buffer:
/// every other part of the configuration stays.
proof fn lemma_absorb_fields(g: Lex, cs: Seq<char>)
    ensures
        ({
            let g2 = lex_absorb(g, cs);
            &&& g2.state == g.state
            &&& g2.ret == g.ret
            &&& g2.out == g.out
            &&& g2.dquotes == g.dquotes
            &&& g2.exps == g.exps
            &&& g2.squote == g.squote
            &&& g2.buf == g.buf + cs
        }),
    decreases cs.len(),
{
    if cs.len() == 0 {
        assert(g.buf + cs =~= g.buf);
    } else {
        let g1 = lex_buffer(lex_advance(g, cs[0]), cs[0]);
        lemma_absorb_fields(g1, cs.drop_first());
        assert(g1.buf =~= g.buf + seq![cs[0]]);
        assert((g.buf + seq![cs[0]]) + cs.drop_first() =~= g.buf + cs);
    }
}

/// In a single-quoted literal, every character but the closing quote is
/// buffered; the closing quote resumes the calling state.
proof fn lemma_run_squote_close(g: Lex, body: Seq<char>, tail: Seq<char>)
    requires
        g.state == LexState::SingleQuoted,
        forall|i: int| 0 <= i < body.len() ==> #[trigger] body[i] != '\'' && body[i] != '\0',
    ensures
        lex_run(g, body + seq!['\''] + tail) == lex_run(
            lex_pop_ret(lex_advance(lex_absorb(g, body), '\'')),
            tail,
        ),
    decreases body.len(),
{
    if body.len() == 0 {
        let input = body + seq!['\''] + tail;
        assert(input[0] == '\'');
        assert(input.drop_first() =~= tail);
    } else {
        let c = body[0];
        let input = body + seq!['\''] + tail;
        assert(input[0] == c);
        assert(input.drop_first() =~= body.drop_first() + seq!['\''] + tail);
        let g1 = lex_buffer(lex_advance(g, c), c);
        lemma_run_squote_close(g1, body.drop_first(), tail);
    }
}

/// A single-quoted literal the input ends inside fails at the opening
/// quote's recorded position.
proof fn lemma_run_squote_eof(g: Lex, body: Seq<char>)
    requires
        g.state == LexState::SingleQuoted,
        forall|i: int| 0 <= i < body.len() ==> #[trigger] body[i] != '\'' && body[i] != '\0',
    ensures
        lex_run(g, body) == Err::<Seq<SpecToken>, _>(
            SpecSyntaxError { kind: SpecErrorKind::UnterminatedSingleQuotedString, pos: g.squote },
        ),
    decreases body.len(),
{
    if body.len() > 0 {
        let c = body[0];
        let g1 = lex_buffer(lex_advance(g, c), c);
        lemma_run_squote_eof(g1, body.drop_first());
    }
}

/// A double-quoted string the input ends inside fails at the opening
/// quote's recorded position. (The body here has no escapes, quotes,
/// expansions or backticks, so every character is buffered.)
proof fn lemma_run_dquote_eof(g: Lex, body: Seq<char>)
    requires
        g.state == LexState::DoubleQuoted,
        g.dquotes.len() > 0,
        forall|i: int|
            0 <= i < body.len() ==> #[trigger] body[i] != '"' && body[i] != '\\' && body[i]
                != '$' && body[i] != '`' && body[i] != '\0',
    ensures
        lex_run(g, body) == Err::<Seq<SpecToken>, _>(
            SpecSyntaxError {
                kind: SpecErrorKind::UnterminatedDoubleQuotedString,
                pos: g.dquotes.last(),
            },
        ),
    decreases body.len(),
{
    if body.len() > 0 {
        let c = body[0];
        let g1 = lex_buffer(lex_advance(g, c), c);
        lemma_run_dquote_eof(g1, body.drop_first());
    }
}

/// A `${NAME` expansion the input ends inside fails at the `{` opener's
/// recorded position.
proof fn lemma_run_complex_eof(g: Lex, body: Seq<char>)
    requires
        g.state == LexState::ComplexExpansion,
        g.exps.len() > 0,
        forall|i: int| 0 <= i < body.len() ==> spec_is_identifier_char(#[trigger] body[i]),
    ensures
        lex_run(g, body) == Err::<Seq<SpecToken>, _>(
            SpecSyntaxError { kind: SpecErrorKind::UnterminatedExpansion, pos: g.exps.last() },
        ),
    decreases body.len(),
{
    if body.len() > 0 {
        let c = body[0];
        let g1 = lex_buffer(lex_advance(g, c), c);
        lemma_run_complex_eof(g1, body.drop_first());
    }
}

/// The configuration inside the single quote of `NAME='`, the opener at
/// the column after the `=`.
spec fn squote_cfg(name: Seq<char>) -> Lex {
    Lex {
        state: LexState::SingleQuoted,
        ret: seq![LexState::AssignmentValue],
        buf: Seq::empty(),
        buf_pos: SpecPos { line: 1, column: 1 },
        line: 1,
        column: name.len() + 2,
        squote: SpecPos { line: 1, column: name.len() + 2 },
        dquotes: Seq::empty(),
        exps: Seq::empty(),
        out: seq![tok_assign(name)],
    }
}

/// Entering the single quote of `NAME='…`.
proof fn lemma_enter_squote(name: Seq<char>, rest: Seq<char>)
    requires
        is_identifier(name),
    ensures
        lex_run(initial_lex(), name + seq!['=', '\''] + rest) == lex_run(squote_cfg(name), rest),
{
    let tail = seq!['\''] + rest;
    assert(name + seq!['=', '\''] + rest =~= name + seq!['='] + tail);
    lemma_start_assignment(name, tail);
    assert(tail[0] == '\'');
    assert(tail.drop_first() =~= rest);
    let g1 = lex_advance(value_cfg(name), '\'');
    match lex_char(g1, '\'') {
        LexStep::Next(g2) => {
            assert(g2 =~= squote_cfg(name));
        },
        _ => {
            assert(false);
        },
    }
}

/// Single-quote transparency: for any body without a quote or NUL,
/// `NAME='body'` evaluates to the binding `NAME = body` — dollars,
/// backslashes, double quotes, newlines and operator characters stand
/// for themselves.
pub proof fn lemma_single_quote_transparency(name: Seq<char>, body: Seq<char>, ov: bool)
    requires
        is_identifier(name),
        forall|i: int| 0 <= i < body.len() ==> #[trigger] body[i] != '\'' && body[i] != '\0',
    ensures
        sp_eval_files(
            seq![name + seq!['=', '\''] + body + seq!['\'']],
            Map::empty(),
            Seq::empty(),
            ov,
        ) == Ok::<_, SpecPotenvError>(seq![(name, body)]),
{
    let input = name + seq!['=', '\''] + body + seq!['\''];
    assert(input =~= name + seq!['=', '\''] + (body + seq!['\'']));
    lemma_enter_squote(name, body + seq!['\'']);
    assert(body + seq!['\''] =~= body + seq!['\''] + Seq::<char>::empty());
    lemma_run_squote_close(squote_cfg(name), body, Seq::empty());
    let gq = lex_absorb(squote_cfg(name), body);
    lemma_absorb_fields(squote_cfg(name), body);
    let gb = lex_pop_ret(lex_advance(gq, '\''));
    assert(gb.state == LexState::AssignmentValue);
    assert(gb.buf =~= body);
    assert(gb.out =~= seq![tok_assign(name)]);
    let toks = lex_emit_eof(lex_flush(gb, TokenKind::Characters));
    assert(lex_run(gb, Seq::<char>::empty()) == Ok::<_, SpecSyntaxError>(toks));
    if body.len() == 0 {
        assert(toks =~= seq![tok_assign(name), toks[1]]);
        assert(toks[1].kind == TokenKind::Eof);
        lemma_parse_assign_empty(tok_assign(name), toks[1]);
        lemma_eval_one_empty(name, ov);
        assert(spec_parse_input(input) == Ok::<_, SpecParseError>(
            seq![SpecAssignment { name, value: Seq::empty() }],
        ));
        lemma_eval_one_file(
            input,
            seq![SpecAssignment { name, value: Seq::empty() }],
            seq![(name, body)],
            ov,
        );
    } else {
        assert(toks =~= seq![tok_assign(name), toks[1], toks[2]]);
        assert(toks[1].kind == TokenKind::Characters && toks[1].value == body);
        assert(toks[2].kind == TokenKind::Eof);
        lemma_parse_assign_chars(tok_assign(name), toks[1], toks[2]);
        lemma_eval_one_literal(name, body, ov);
        assert(spec_parse_input(input) == Ok::<_, SpecParseError>(
            seq![SpecAssignment { name, value: seq![SpecExpression::Characters(body)] }],
        ));
        lemma_eval_one_file(
            input,
            seq![SpecAssignment { name, value: seq![SpecExpression::Characters(body)] }],
            seq![(name, body)],
            ov,
        );
    }
}

/// Unterminated single quote: the reported position is the opening
/// quote's, wherever the input ends.
pub proof fn lemma_unterminated_single_quote_position(name: Seq<char>, body: Seq<char>)
    requires
        is_identifier(name),
        forall|i: int| 0 <= i < body.len() ==> #[trigger] body[i] != '\'' && body[i] != '\0',
    ensures
        spec_tokenize(name + seq!['=', '\''] + body) == Err::<Seq<SpecToken>, _>(
            SpecSyntaxError {
                kind: SpecErrorKind::UnterminatedSingleQuotedString,
                pos: SpecPos { line: 1, column: name.len() + 2 },
            },
        ),
{
    lemma_enter_squote(name, body);
    lemma_run_squote_eof(squote_cfg(name), body);
}

/// The configuration inside the double quote of `NAME="`, its opener on
/// the double-quote stack.
spec fn dquote_cfg(name: Seq<char>) -> Lex {
    Lex {
        state: LexState::DoubleQuoted,
        ret: seq![LexState::AssignmentValue],
        buf: Seq::empty(),
        buf_pos: SpecPos { line: 1, column: 1 },
        line: 1,
        column: name.len() + 2,
        squote: SpecPos { line: 0, column: 0 },
        dquotes: seq![SpecPos { line: 1, column: name.len() + 2 }],
        exps: Seq::empty(),
        out: seq![tok_assign(name)],
    }
}

/// Unterminated double quote: the reported position is the opening
/// quote's, wherever the input ends. (The body here has no escapes,
/// quotes, expansions or backticks.)
pub proof fn lemma_unterminated_double_quote_position(name: Seq<char>, body: Seq<char>)
    requires
        is_identifier(name),
        forall|i: int|
            0 <= i < body.len() ==> #[trigger] body[i] != '"' && body[i] != '\\' && body[i]
                != '$' && body[i] != '`' && body[i] != '\0',
    ensures
        spec_tokenize(name + seq!['=', '"'] + body) == Err::<Seq<SpecToken>, _>(
            SpecSyntaxError {
                kind: SpecErrorKind::UnterminatedDoubleQuotedString,
                pos: SpecPos { line: 1, column: name.len() + 2 },
            },
        ),
{
    let tail = seq!['"'] + body;
    assert(name + seq!['=', '"'] + body =~= name + seq!['='] + tail);
    lemma_start_assignment(name, tail);
    assert(tail[0] == '"');
    assert(tail.drop_first() =~= body);
    let g1 = lex_advance(value_cfg(name), '"');
    match lex_char(g1, '"') {
        LexStep::Next(g2) => {
            assert(g2 =~= dquote_cfg(name));
        },
        _ => {
            assert(false);
        },
    }
    lemma_run_dquote_eof(dquote_cfg(name), body);
}

/// Unterminated expansion: the reported position is the `{` opener's,
/// wherever the input ends.
pub proof fn lemma_unterminated_expansion_position(name: Seq<char>, xname: Seq<char>)
    requires
        is_identifier(name),
        is_identifier(xname),
    ensures
        spec_tokenize(name + seq!['=', '$', '{'] + xname) == Err::<Seq<SpecToken>, _>(
            SpecSyntaxError {
                kind: SpecErrorKind::UnterminatedExpansion,
                pos: SpecPos { line: 1, column: name.len() + 3 },
            },
        ),
{
    let tail = seq!['$', '{'] + xname;
    assert(name + seq!['=', '$', '{'] + xname =~= name + seq!['='] + tail);
    lemma_start_assignment(name, tail);
    assert(tail[0] == '$');
    assert(tail.drop_first() =~= seq!['{'] + xname);
    let g1 = lex_advance(value_cfg(name), '$');
    let gd = Lex {
        state: LexState::Dollar,
        ret: seq![LexState::AssignmentValue],
        column: name.len() + 2,
        ..value_cfg(name)
    };
    match lex_char(g1, '$') {
        LexStep::Next(g2) => {
            assert(g2 =~= gd);
        },
        _ => {
            assert(false);
        },
    }
    let t2 = seq!['{'] + xname;
    assert(t2[0] == '{');
    assert(t2.drop_first() =~= xname);
    let g3 = lex_advance(gd, '{');
    let gs = Lex {
        state: LexState::ComplexExpansionStart,
        column: name.len() + 3,
        exps: seq![SpecPos { line: 1, column: name.len() + 3 }],
        ..gd
    };
    match lex_char(g3, '{') {
        LexStep::Next(g2) => {
            assert(g2 =~= gs);
        },
        _ => {
            assert(false);
        },
    }
    assert(lex_run(value_cfg(name), tail) == lex_run(gd, t2));
    assert(lex_run(gd, t2) == lex_run(gs, xname));
    assert(xname[0] != '\0' && xname[0] != '\n');
    let g4 = lex_advance(gs, xname[0]);
    let gx = Lex {
        state: LexState::ComplexExpansion,
        column: name.len() + 4,
        buf: seq![xname[0]],
        buf_pos: SpecPos { line: 1, column: name.len() + 4 },
        ..gs
    };
    match lex_char(g4, xname[0]) {
        LexStep::Next(g2) => {
            assert(g2 =~= gx);
        },
        _ => {
            assert(false);
        },
    }
    assert(lex_run(gs, xname) == lex_run(gx, xname.drop_first()));
    assert(forall|i: int|
        0 <= i < xname.drop_first().len() ==> spec_is_identifier_char(
            #[trigger] xname.drop_first()[i],
        ));
    lemma_run_complex_eof(gx, xname.drop_first());
}

} // verus!
