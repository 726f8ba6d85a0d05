//! The parser: LL(1) over the token stream, one token of lookahead,
//! assembling tokens into assignments and expression trees.
//!
//! As with the tokenizer, the parser is stated twice: as a mathematical
//! transition function consuming one token at a time (`parse_step`,
//! `parse_run`), and as executable code (`Parser`) proved to yield
//! exactly its result.

use vstd::prelude::*;

use crate::ast::{
    assignments_view, expr_view, exprs_view, lemma_exprs_view_push, Assignment, Expansion,
    Expression, Operator, SpecAssignment, SpecExpansion, SpecExpression,
};
use crate::err::{SpecSyntaxError, SyntaxError};
use crate::token::{tokens_view, SpecToken, Token, TokenKind};
use crate::tokenizer::{file_view, spec_tokenize, Tokenizer};

verus! {

/// A parse error: the stream ended early, a well-formed token stood in
/// a wrong position, an operator lexeme is unknown, or the tokenizer
/// itself failed.
#[derive(Debug, PartialEq)]
pub enum ParseError {
    Eof,
    Unexpected(Token),
    UnknownOperator(String),
    Syntax(SyntaxError),
}

/// Mathematical model of a parse error.
pub ghost enum SpecParseError {
    Eof,
    Unexpected(SpecToken),
    UnknownOperator(Seq<char>),
    Syntax(SpecSyntaxError),
}

impl View for ParseError {
    type V = SpecParseError;

    open spec fn view(&self) -> SpecParseError {
        match self {
            ParseError::Eof => SpecParseError::Eof,
            ParseError::Unexpected(t) => SpecParseError::Unexpected(t@),
            ParseError::UnknownOperator(s) => SpecParseError::UnknownOperator(s@),
            ParseError::Syntax(e) => SpecParseError::Syntax(e@),
        }
    }
}

/// The operator tag of an operator lexeme; `None` for any other text.
pub open spec fn spec_operator_of(s: Seq<char>) -> Option<Operator> {
    if s == seq!['-'] {
        Some(Operator::IfUnset)
    } else if s == seq![':', '-'] {
        Some(Operator::IfUnsetOrNull)
    } else if s == seq!['='] {
        Some(Operator::AssignIfUnset)
    } else if s == seq![':', '='] {
        Some(Operator::AssignIfUnsetOrNull)
    } else if s == seq!['+'] {
        Some(Operator::IfSet)
    } else if s == seq![':', '+'] {
        Some(Operator::IfSetAndNotNull)
    } else if s == seq!['?'] {
        Some(Operator::ErrorIfUnset)
    } else if s == seq![':', '?'] {
        Some(Operator::ErrorIfUnsetOrNull)
    } else {
        None
    }
}

// ---------------------------------------------------------------------
// The mathematical parser
// ---------------------------------------------------------------------

/// An open `${NAME op …` expansion: its name, operator, and the
/// right-hand-side expressions assembled so far.
pub ghost struct SpecFrame {
    pub name: Seq<char>,
    pub operator: Operator,
    pub rhs: Seq<SpecExpression>,
}

/// A configuration of the parser: the assignments completed so far, the
/// open assignment (name and value expressions so far) if any, the stack
/// of open expansions (innermost last), and the name of a
/// `StartExpansion` still waiting for its operator token.
#[verifier::ext_equal]
pub ghost struct Parse {
    pub done: Seq<SpecAssignment>,
    pub cur: Option<(Seq<char>, Seq<SpecExpression>)>,
    pub stack: Seq<SpecFrame>,
    pub await_op: Option<Seq<char>>,
}

/// The outcome of consuming one token.
pub ghost enum ParseStep {
    Next(Parse),
    Done(Seq<SpecAssignment>),
    Fail(SpecParseError),
}

/// The configuration the parser starts in.
pub open spec fn initial_parse() -> Parse {
    Parse { done: Seq::empty(), cur: None, stack: Seq::empty(), await_op: None }
}

/// Append an expression to the innermost open context: the innermost
/// open expansion's right-hand side, or the open assignment's value.
pub open spec fn parse_append(p: Parse, e: SpecExpression) -> Parse {
    if p.stack.len() > 0 {
        let f = p.stack.last();
        Parse {
            stack: p.stack.drop_last().push(
                SpecFrame { name: f.name, operator: f.operator, rhs: f.rhs.push(e) },
            ),
            ..p
        }
    } else {
        match p.cur {
            Some((name, exprs)) => Parse { cur: Some((name, exprs.push(e))), ..p },
            None => p,
        }
    }
}

/// Consume one token.
pub open spec fn parse_step(p: Parse, t: SpecToken) -> ParseStep {
    match p.await_op {
        Some(name) => match t.kind {
            TokenKind::ExpansionOperator => match spec_operator_of(t.value) {
                Some(op) => ParseStep::Next(
                    Parse {
                        stack: p.stack.push(
                            SpecFrame { name, operator: op, rhs: Seq::empty() },
                        ),
                        await_op: None,
                        ..p
                    },
                ),
                None => ParseStep::Fail(SpecParseError::UnknownOperator(t.value)),
            },
            _ => ParseStep::Fail(SpecParseError::Unexpected(t)),
        },
        None => match p.cur {
            None => match t.kind {
                TokenKind::Eof => ParseStep::Done(p.done),
                TokenKind::Assign => ParseStep::Next(
                    Parse { cur: Some((t.value, Seq::empty())), ..p },
                ),
                _ => ParseStep::Fail(SpecParseError::Unexpected(t)),
            },
            Some((name, exprs)) => {
                if p.stack.len() == 0 {
                    match t.kind {
                        TokenKind::Eof => ParseStep::Done(
                            p.done.push(SpecAssignment { name, value: exprs }),
                        ),
                        TokenKind::Assign => ParseStep::Next(
                            Parse {
                                done: p.done.push(SpecAssignment { name, value: exprs }),
                                cur: Some((t.value, Seq::empty())),
                                ..p
                            },
                        ),
                        TokenKind::Characters => ParseStep::Next(
                            parse_append(p, SpecExpression::Characters(t.value)),
                        ),
                        TokenKind::SimpleExpansion => ParseStep::Next(
                            parse_append(
                                p,
                                SpecExpression::Expansion(
                                    SpecExpansion {
                                        name: t.value,
                                        operator: Operator::IfUnset,
                                        rhs: Seq::empty(),
                                    },
                                ),
                            ),
                        ),
                        TokenKind::StartExpansion => ParseStep::Next(
                            Parse { await_op: Some(t.value), ..p },
                        ),
                        _ => ParseStep::Fail(SpecParseError::Unexpected(t)),
                    }
                } else {
                    match t.kind {
                        TokenKind::EndExpansion => {
                            let f = p.stack.last();
                            ParseStep::Next(
                                parse_append(
                                    Parse { stack: p.stack.drop_last(), ..p },
                                    SpecExpression::Expansion(
                                        SpecExpansion {
                                            name: f.name,
                                            operator: f.operator,
                                            rhs: f.rhs,
                                        },
                                    ),
                                ),
                            )
                        },
                        TokenKind::Characters => ParseStep::Next(
                            parse_append(p, SpecExpression::Characters(t.value)),
                        ),
                        TokenKind::SimpleExpansion => ParseStep::Next(
                            parse_append(
                                p,
                                SpecExpression::Expansion(
                                    SpecExpansion {
                                        name: t.value,
                                        operator: Operator::IfUnset,
                                        rhs: Seq::empty(),
                                    },
                                ),
                            ),
                        ),
                        TokenKind::StartExpansion => ParseStep::Next(
                            Parse { await_op: Some(t.value), ..p },
                        ),
                        _ => ParseStep::Fail(SpecParseError::Unexpected(t)),
                    }
                }
            },
        },
    }
}

/// Run the parser over the remaining tokens. A stream that ends without
/// an `Eof` token is an error.
pub open spec fn parse_run(p: Parse, ts: Seq<SpecToken>) -> Result<
    Seq<SpecAssignment>,
    SpecParseError,
>
    decreases ts.len(),
{
    if ts.len() == 0 {
        Err(SpecParseError::Eof)
    } else {
        match parse_step(p, ts[0]) {
            ParseStep::Next(p2) => parse_run(p2, ts.drop_first()),
            ParseStep::Done(asts) => Ok(asts),
            ParseStep::Fail(e) => Err(e),
        }
    }
}

/// What parsing a token sequence yields.
pub open spec fn spec_parse(ts: Seq<SpecToken>) -> Result<Seq<SpecAssignment>, SpecParseError> {
    parse_run(initial_parse(), ts)
}

/// What parsing an input text yields: tokenize, then parse; a tokenizer
/// error passes through.
pub open spec fn spec_parse_input(input: Seq<char>) -> Result<Seq<SpecAssignment>, SpecParseError> {
    match spec_tokenize(input) {
        Ok(ts) => spec_parse(ts),
        Err(se) => Err(SpecParseError::Syntax(se)),
    }
}

// ---------------------------------------------------------------------
// The executable parser
// ---------------------------------------------------------------------

/// An open expansion being assembled.
struct Frame {
    name: String,
    operator: Operator,
    exprs: Vec<Expression>,
}

spec fn frame_view(f: Frame) -> SpecFrame {
    SpecFrame { name: f.name@, operator: f.operator, rhs: exprs_view(f.exprs@) }
}

spec fn frames_view(s: Seq<Frame>) -> Seq<SpecFrame> {
    s.map_values(|f: Frame| frame_view(f))
}

spec fn cur_view(name: Option<String>, exprs: Seq<Expression>) -> Option<
    (Seq<char>, Seq<SpecExpression>),
> {
    match name {
        Some(n) => Some((n@, exprs_view(exprs))),
        None => None,
    }
}

spec fn parser_cfg(
    done: Seq<Assignment>,
    cur_name: Option<String>,
    cur_exprs: Seq<Expression>,
    stack: Seq<Frame>,
    await_name: Option<String>,
) -> Parse {
    Parse {
        done: assignments_view(done),
        cur: cur_view(cur_name, cur_exprs),
        stack: frames_view(stack),
        await_op: file_view(&await_name),
    }
}

/// Append an expression to the innermost open context: the innermost
/// open frame's right-hand side, or the open assignment's value.
fn append_expr(stack: &mut Vec<Frame>, cur: &mut Vec<Expression>, e: Expression)
    ensures
        old(stack)@.len() > 0 ==> final(cur)@ == old(cur)@ && frames_view(final(stack)@)
            == frames_view(old(stack)@).drop_last().push(
            SpecFrame {
                name: frames_view(old(stack)@).last().name,
                operator: frames_view(old(stack)@).last().operator,
                rhs: frames_view(old(stack)@).last().rhs.push(expr_view(e)),
            },
        ),
        old(stack)@.len() == 0 ==> final(stack)@ == old(stack)@ && exprs_view(final(cur)@)
            == exprs_view(old(cur)@).push(expr_view(e)),
{
    let ghost e_spec = expr_view(e);
    match stack.pop() {
        Some(f) => {
            let mut f = f;
            let ghost rhs0 = f.exprs@;
            f.exprs.push(e);
            proof {
                lemma_exprs_view_push(rhs0, e);
            }
            stack.push(f);
            proof {
                assert(frames_view(stack@) =~= frames_view(old(stack)@).drop_last().push(
                    SpecFrame {
                        name: frames_view(old(stack)@).last().name,
                        operator: frames_view(old(stack)@).last().operator,
                        rhs: frames_view(old(stack)@).last().rhs.push(e_spec),
                    },
                ));
            }
        },
        None => {
            let ghost cur0 = cur@;
            cur.push(e);
            proof {
                lemma_exprs_view_push(cur0, e);
            }
        },
    }
}

/// Map an operator lexeme to its tag; `None` for any other text.
fn operator_of(value: &String) -> (r: Option<Operator>)
    ensures
        r == spec_operator_of(value@),
{
    let s = value.as_str();
    let n = s.unicode_len();
    if n == 1 {
        let c = s.get_char(0);
        proof {
            assert(value@ =~= seq![c]);
        }
        if c == '-' {
            Some(Operator::IfUnset)
        } else if c == '=' {
            Some(Operator::AssignIfUnset)
        } else if c == '+' {
            Some(Operator::IfSet)
        } else if c == '?' {
            Some(Operator::ErrorIfUnset)
        } else {
            None
        }
    } else if n == 2 {
        let c0 = s.get_char(0);
        let c1 = s.get_char(1);
        proof {
            assert(value@ =~= seq![c0, c1]);
        }
        if c0 == ':' && c1 == '-' {
            Some(Operator::IfUnsetOrNull)
        } else if c0 == ':' && c1 == '=' {
            Some(Operator::AssignIfUnsetOrNull)
        } else if c0 == ':' && c1 == '+' {
            Some(Operator::IfSetAndNotNull)
        } else if c0 == ':' && c1 == '?' {
            Some(Operator::ErrorIfUnsetOrNull)
        } else {
            None
        }
    } else {
        None
    }
}

/// The parser. Build one with [`Parser::new`] from a token sequence,
/// then call [`Parser::parse`].
pub struct Parser {
    tokens: Vec<Token>,
}

impl Parser {
    /// The models of the tokens this parser reads.
    pub closed spec fn tokens_seq(&self) -> Seq<SpecToken> {
        tokens_view(self.tokens@)
    }

    pub fn new(tokens: Vec<Token>) -> (r: Parser)
        ensures
            r.tokens_seq() == tokens_view(tokens@),
    {
        Parser { tokens }
    }

    /// A copy of the token at `i`.
    fn token_at(&self, i: usize) -> (t: Token)
        requires
            i < self.tokens@.len(),
        ensures
            t@ == self.tokens_seq()[i as int],
    {
        let tr = &self.tokens[i];
        Token::new(tr.kind, tr.value.clone(), tr.position)
    }

    /// Parse the token sequence into assignments, or the first parse
    /// error. The result is exactly what the mathematical parser yields
    /// on the token models.
    pub fn parse(&mut self) -> (r: Result<Vec<Assignment>, ParseError>)
        ensures
            final(self).tokens_seq() == old(self).tokens_seq(),
            match r {
                Ok(asts) => spec_parse(old(self).tokens_seq()) == Ok::<_, SpecParseError>(
                    assignments_view(asts@),
                ),
                Err(e) => spec_parse(old(self).tokens_seq()) matches Err(pe) && e@ == pe,
            },
    {
        let ghost toks = self.tokens_seq();
        let mut done: Vec<Assignment> = Vec::new();
        let mut cur_name: Option<String> = None;
        let mut cur_exprs: Vec<Expression> = Vec::new();
        let mut stack: Vec<Frame> = Vec::new();
        let mut await_name: Option<String> = None;
        let mut i: usize = 0;
        proof {
            assert(parser_cfg(done@, cur_name, cur_exprs@, stack@, await_name) =~~= initial_parse());
            assert(toks.skip(0) =~= toks);
        }
        #[verifier::loop_isolation(false)]
        loop
            invariant
                i <= toks.len(),
                toks.len() == self.tokens@.len(),
                cur_name is None ==> cur_exprs@.len() == 0,
                parse_run(
                    parser_cfg(done@, cur_name, cur_exprs@, stack@, await_name),
                    toks.skip(i as int),
                ) == spec_parse(toks),
            decreases toks.len() - i,
        {
            let ghost pre = parser_cfg(done@, cur_name, cur_exprs@, stack@, await_name);
            if i == self.tokens.len() {
                proof {
                    assert(toks.skip(i as int) =~= Seq::<SpecToken>::empty());
                }
                return Err(ParseError::Eof);
            }
            let t = self.token_at(i);
            let ghost t_spec = t@;
            proof {
                assert(toks.skip(i as int)[0] == t_spec);
                assert(toks.skip(i as int).drop_first() =~= toks.skip(i as int + 1));
            }
            i = i + 1;
            let aw = await_name;
            await_name = None;
            match aw {
                Some(name) => {
                    if t.kind == TokenKind::ExpansionOperator {
                        match operator_of(&t.value) {
                            Some(op) => {
                                stack.push(Frame { name, operator: op, exprs: Vec::new() });
                                proof {
                                    assert(parser_cfg(
                                        done@,
                                        cur_name,
                                        cur_exprs@,
                                        stack@,
                                        await_name,
                                    ) =~~= (match parse_step(pre, t_spec) {
                                        ParseStep::Next(p2) => p2,
                                        _ => pre,
                                    }));
                                }
                            },
                            None => {
                                return Err(ParseError::UnknownOperator(t.value));
                            },
                        }
                    } else {
                        return Err(ParseError::Unexpected(t));
                    }
                },
                None => {
                    let cn = cur_name;
                    cur_name = None;
                    match cn {
                        None => {
                            if t.kind == TokenKind::Eof {
                                return Ok(done);
                            } else if t.kind == TokenKind::Assign {
                                cur_name = Some(t.value);
                                proof {
                                    assert(parser_cfg(
                                        done@,
                                        cur_name,
                                        cur_exprs@,
                                        stack@,
                                        await_name,
                                    ) =~~= (match parse_step(pre, t_spec) {
                                        ParseStep::Next(p2) => p2,
                                        _ => pre,
                                    }));
                                }
                            } else {
                                return Err(ParseError::Unexpected(t));
                            }
                        },
                        Some(name) => {
                            if t.kind == TokenKind::Eof {
                                if stack.len() == 0 {
                                    let ghost done0 = done@;
                                    done.push(Assignment::new(name, cur_exprs));
                                    proof {
                                        assert(assignments_view(done@) =~= assignments_view(
                                            done0,
                                        ).push(
                                            SpecAssignment {
                                                name: pre.cur->Some_0.0,
                                                value: pre.cur->Some_0.1,
                                            },
                                        ));
                                    }
                                    return Ok(done);
                                } else {
                                    return Err(ParseError::Unexpected(t));
                                }
                            } else if t.kind == TokenKind::Assign {
                                if stack.len() == 0 {
                                    let ghost done0 = done@;
                                    done.push(Assignment::new(name, cur_exprs));
                                    cur_exprs = Vec::new();
                                    cur_name = Some(t.value);
                                    proof {
                                        assert(assignments_view(done@) =~= assignments_view(
                                            done0,
                                        ).push(
                                            SpecAssignment {
                                                name: pre.cur->Some_0.0,
                                                value: pre.cur->Some_0.1,
                                            },
                                        ));
                                        assert(parser_cfg(
                                            done@,
                                            cur_name,
                                            cur_exprs@,
                                            stack@,
                                            await_name,
                                        ) =~~= (match parse_step(pre, t_spec) {
                                            ParseStep::Next(p2) => p2,
                                            _ => pre,
                                        }));
                                    }
                                } else {
                                    return Err(ParseError::Unexpected(t));
                                }
                            } else if t.kind == TokenKind::Characters {
                                append_expr(&mut stack, &mut cur_exprs, Expression::Characters(t.value));
                                cur_name = Some(name);
                                proof {
                                    assert(parser_cfg(
                                        done@,
                                        cur_name,
                                        cur_exprs@,
                                        stack@,
                                        await_name,
                                    ) =~~= (match parse_step(pre, t_spec) {
                                        ParseStep::Next(p2) => p2,
                                        _ => pre,
                                    }));
                                }
                            } else if t.kind == TokenKind::SimpleExpansion {
                                append_expr(
                                    &mut stack,
                                    &mut cur_exprs,
                                    Expression::Expansion(
                                        Expansion::new(t.value, Operator::IfUnset, Vec::new()),
                                    ),
                                );
                                cur_name = Some(name);
                                proof {
                                    assert(parser_cfg(
                                        done@,
                                        cur_name,
                                        cur_exprs@,
                                        stack@,
                                        await_name,
                                    ) =~~= (match parse_step(pre, t_spec) {
                                        ParseStep::Next(p2) => p2,
                                        _ => pre,
                                    }));
                                }
                            } else if t.kind == TokenKind::StartExpansion {
                                await_name = Some(t.value);
                                cur_name = Some(name);
                                proof {
                                    assert(parser_cfg(
                                        done@,
                                        cur_name,
                                        cur_exprs@,
                                        stack@,
                                        await_name,
                                    ) =~~= (match parse_step(pre, t_spec) {
                                        ParseStep::Next(p2) => p2,
                                        _ => pre,
                                    }));
                                }
                            } else if t.kind == TokenKind::EndExpansion {
                                match stack.pop() {
                                    Some(f) => {
                                        append_expr(
                                            &mut stack,
                                            &mut cur_exprs,
                                            Expression::Expansion(
                                                Expansion::new(f.name, f.operator, f.exprs),
                                            ),
                                        );
                                        cur_name = Some(name);
                                        proof {
                                            assert(parser_cfg(
                                                done@,
                                                cur_name,
                                                cur_exprs@,
                                                stack@,
                                                await_name,
                                            ) =~~= (match parse_step(pre, t_spec) {
                                                ParseStep::Next(p2) => p2,
                                                _ => pre,
                                            }));
                                        }
                                    },
                                    None => {
                                        return Err(ParseError::Unexpected(t));
                                    },
                                }
                            } else {
                                return Err(ParseError::Unexpected(t));
                            }
                        },
                    }
                },
            }
        }
    }
}

/// Parse an input text under an optional source name: tokenize, then
/// parse. The result is exactly what the mathematical pipeline yields on
/// the input characters.
pub fn parse(input: &str, filename: Option<&str>) -> (r: Result<Vec<Assignment>, ParseError>)
    requires
        input@.len() < usize::MAX,
    ensures
        match r {
            Ok(asts) => spec_parse_input(input@) == Ok::<_, SpecParseError>(
                assignments_view(asts@),
            ),
            Err(e) => spec_parse_input(input@) matches Err(pe) && e@ == pe,
        },
{
    let fname = match filename {
        Some(f) => Some(f.to_owned()),
        None => None,
    };
    let tokenizer = Tokenizer::new(input, fname);
    match tokenizer.tokenize() {
        Ok(toks) => {
            let mut parser = Parser::new(toks);
            parser.parse()
        },
        Err(e) => Err(ParseError::Syntax(e)),
    }
}

} // verus!
