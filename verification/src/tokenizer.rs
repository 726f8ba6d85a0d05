//! The tokenizer: a deterministic state machine over a character
//! stream, with a return-state stack so that states reachable from
//! several contexts (`$`, single quote, double quote) can resume in the
//! caller state.
//!
//! The machine is stated twice: once as a mathematical transition
//! function over configurations (`lex_char`, `lex_eof`, `lex_run`), and
//! once as executable code (`Tokenizer`) proved to produce exactly the
//! tokens of the mathematical machine.

use vstd::prelude::*;

use crate::err::{ErrorKind, SpecErrorKind, SpecSyntaxError, SyntaxError};
use crate::pos::Position;
use crate::token::{positions_view, tokens_view, SpecPos, SpecToken, Token, TokenKind};

verus! {

/// The states of the tokenizer's state machine.
#[derive(Debug, Clone, Copy, PartialEq, Eq, Structural)]
pub enum LexState {
    AssignmentList,
    Comment,
    AssignmentName,
    AssignmentValue,
    AssignmentValueEscape,
    SingleQuoted,
    DoubleQuoted,
    DoubleQuotedEscape,
    Dollar,
    SimpleExpansion,
    ComplexExpansionStart,
    ComplexExpansion,
    ExpansionOperator,
    ExpansionValue,
    ExpansionValueEscape,
}

// ---------------------------------------------------------------------
// Character classes
// ---------------------------------------------------------------------

/// Whitespace or newline: space, tab, newline.
pub open spec fn spec_is_wsnl(c: char) -> bool {
    c == ' ' || c == '\t' || c == '\n'
}

#[verifier::when_used_as_spec(spec_is_wsnl)]
pub fn is_wsnl(c: char) -> (r: bool)
    ensures
        r == spec_is_wsnl(c),
{
    c == ' ' || c == '\t' || c == '\n'
}

/// An ASCII letter or underscore: may start an identifier.
pub open spec fn spec_is_identifier_start(c: char) -> bool {
    ('a' <= c && c <= 'z') || ('A' <= c && c <= 'Z') || c == '_'
}

#[verifier::when_used_as_spec(spec_is_identifier_start)]
pub fn is_identifier_start(c: char) -> (r: bool)
    ensures
        r == spec_is_identifier_start(c),
{
    ('a' <= c && c <= 'z') || ('A' <= c && c <= 'Z') || c == '_'
}

/// An ASCII alphanumeric or underscore: may continue an identifier.
pub open spec fn spec_is_identifier_char(c: char) -> bool {
    spec_is_identifier_start(c) || ('0' <= c && c <= '9')
}

#[verifier::when_used_as_spec(spec_is_identifier_char)]
pub fn is_identifier_char(c: char) -> (r: bool)
    ensures
        r == spec_is_identifier_char(c),
{
    is_identifier_start(c) || ('0' <= c && c <= '9')
}

/// A shell metacharacter that must be escaped or quoted in a value.
pub open spec fn spec_is_shell_special_char(c: char) -> bool {
    c == '|' || c == '&' || c == ';' || c == '<' || c == '>' || c == '(' || c == ')'
}

#[verifier::when_used_as_spec(spec_is_shell_special_char)]
pub fn is_shell_special_char(c: char) -> (r: bool)
    ensures
        r == spec_is_shell_special_char(c),
{
    c == '|' || c == '&' || c == ';' || c == '<' || c == '>' || c == '(' || c == ')'
}

/// A special shell parameter name (positional or `@ * # ? $ ! -`),
/// rejected after `$`.
pub open spec fn spec_is_shell_special_param(c: char) -> bool {
    ('0' <= c && c <= '9') || c == '@' || c == '*' || c == '#' || c == '?' || c == '$' || c == '!'
        || c == '-'
}

#[verifier::when_used_as_spec(spec_is_shell_special_param)]
pub fn is_shell_special_param(c: char) -> (r: bool)
    ensures
        r == spec_is_shell_special_param(c),
{
    ('0' <= c && c <= '9') || c == '@' || c == '*' || c == '#' || c == '?' || c == '$' || c == '!'
        || c == '-'
}

/// A character that `\` escapes inside double quotes.
pub open spec fn spec_is_dq_escape(c: char) -> bool {
    c == '"' || c == '$' || c == '`' || c == '\\'
}

#[verifier::when_used_as_spec(spec_is_dq_escape)]
pub fn is_dq_escape(c: char) -> (r: bool)
    ensures
        r == spec_is_dq_escape(c),
{
    c == '"' || c == '$' || c == '`' || c == '\\'
}

/// An expansion operator character.
pub open spec fn spec_is_operator(c: char) -> bool {
    c == '-' || c == '=' || c == '+' || c == '?'
}

#[verifier::when_used_as_spec(spec_is_operator)]
pub fn is_operator(c: char) -> (r: bool)
    ensures
        r == spec_is_operator(c),
{
    c == '-' || c == '=' || c == '+' || c == '?'
}

// ---------------------------------------------------------------------
// The mathematical machine
// ---------------------------------------------------------------------

/// A configuration of the machine: the current state, the return-state
/// stack, the character accumulation buffer with its starting position,
/// the position of the character just consumed, the opening positions
/// of quoting and expansion contexts, and the tokens emitted so far.
#[verifier::ext_equal]
pub ghost struct Lex {
    pub state: LexState,
    pub ret: Seq<LexState>,
    pub buf: Seq<char>,
    pub buf_pos: SpecPos,
    pub line: nat,
    pub column: nat,
    pub squote: SpecPos,
    pub dquotes: Seq<SpecPos>,
    pub exps: Seq<SpecPos>,
    pub out: Seq<SpecToken>,
}

/// The outcome of one transition: continue in a new configuration, end
/// with the final token sequence, or fail with a syntax error.
pub ghost enum LexStep {
    Next(Lex),
    Done(Seq<SpecToken>),
    Fail(SpecErrorKind, SpecPos),
}

/// The configuration the machine starts in.
pub open spec fn initial_lex() -> Lex {
    Lex {
        state: LexState::AssignmentList,
        ret: Seq::empty(),
        buf: Seq::empty(),
        buf_pos: SpecPos { line: 0, column: 0 },
        line: 1,
        column: 0,
        squote: SpecPos { line: 0, column: 0 },
        dquotes: Seq::empty(),
        exps: Seq::empty(),
        out: Seq::empty(),
    }
}

/// Drop the last element of a stack; an empty stack stays empty.
pub open spec fn seq_pop<A>(s: Seq<A>) -> Seq<A> {
    if s.len() == 0 {
        s
    } else {
        s.drop_last()
    }
}

/// The position of the character just consumed.
pub open spec fn cur_pos(g: Lex) -> SpecPos {
    SpecPos { line: g.line, column: g.column }
}

/// The end-of-input position: one past the last character.
pub open spec fn eof_pos(g: Lex) -> SpecPos {
    SpecPos { line: g.line, column: g.column + 1 }
}

/// Advance the source position over `c`: a newline increments the line
/// and resets the column, any other character advances the column.
pub open spec fn lex_advance(g: Lex, c: char) -> Lex {
    if c == '\n' {
        Lex { line: g.line + 1, column: 0, ..g }
    } else {
        Lex { column: g.column + 1, ..g }
    }
}

/// Append `c` to the accumulation buffer; a first character records the
/// buffer's starting position.
pub open spec fn lex_buffer(g: Lex, c: char) -> Lex {
    if g.buf.len() == 0 {
        Lex { buf: seq![c], buf_pos: cur_pos(g), ..g }
    } else {
        Lex { buf: g.buf.push(c), ..g }
    }
}

/// Flush the buffer as a token of the given kind, positioned at the
/// first buffered character; an empty buffer emits nothing.
pub open spec fn lex_flush(g: Lex, kind: TokenKind) -> Lex {
    if g.buf.len() == 0 {
        g
    } else {
        Lex {
            out: g.out.push(SpecToken { kind, value: g.buf, pos: g.buf_pos }),
            buf: Seq::empty(),
            ..g
        }
    }
}

/// Emit a token with the given payload at the current position.
pub open spec fn lex_emit(g: Lex, kind: TokenKind, value: Seq<char>) -> Lex {
    Lex { out: g.out.push(SpecToken { kind, value, pos: cur_pos(g) }), ..g }
}

/// The final token sequence: everything emitted, closed by `Eof`.
pub open spec fn lex_emit_eof(g: Lex) -> Seq<SpecToken> {
    g.out.push(SpecToken { kind: TokenKind::Eof, value: Seq::empty(), pos: eof_pos(g) })
}

/// Switch to `s`.
pub open spec fn lex_goto(g: Lex, s: LexState) -> Lex {
    Lex { state: s, ..g }
}

/// Push the current state on the return-state stack.
pub open spec fn lex_push_ret(g: Lex) -> Lex {
    Lex { ret: g.ret.push(g.state), ..g }
}

/// Pop the return-state stack and resume in the popped state; an empty
/// stack leaves the configuration unchanged.
pub open spec fn lex_pop_ret(g: Lex) -> Lex {
    if g.ret.len() == 0 {
        g
    } else {
        Lex { state: g.ret.last(), ret: g.ret.drop_last(), ..g }
    }
}

/// Fail with an unterminated double quote, pointing at the most recent
/// opener. (The stack is never empty here when the machine is run from
/// its initial configuration.)
pub open spec fn lex_fail_dquote(g: Lex) -> LexStep {
    if g.dquotes.len() > 0 {
        LexStep::Fail(SpecErrorKind::UnterminatedDoubleQuotedString, g.dquotes.last())
    } else {
        LexStep::Fail(SpecErrorKind::Eof, eof_pos(g))
    }
}

/// Fail with an unterminated expansion, pointing at the most recent
/// `${` opener.
pub open spec fn lex_fail_expansion(g: Lex) -> LexStep {
    if g.exps.len() > 0 {
        LexStep::Fail(SpecErrorKind::UnterminatedExpansion, g.exps.last())
    } else {
        LexStep::Fail(SpecErrorKind::Eof, eof_pos(g))
    }
}

/// One transition on character `c` (whose position `g` already holds).
/// Never yields `Done`. The two reconsume transitions (`Dollar` seeing
/// a literal dollar, `SimpleExpansion` seeing its terminator) pop the
/// return-state stack and process `c` again in the popped state.
pub open spec fn lex_char(g: Lex, c: char) -> LexStep
    decreases g.ret.len(),
{
    match g.state {
        LexState::AssignmentList => {
            if spec_is_wsnl(c) {
                LexStep::Next(g)
            } else if c == '#' {
                LexStep::Next(lex_goto(g, LexState::Comment))
            } else if spec_is_identifier_start(c) {
                LexStep::Next(lex_goto(lex_buffer(g, c), LexState::AssignmentName))
            } else {
                LexStep::Fail(SpecErrorKind::InvalidCharacter(c), cur_pos(g))
            }
        },
        LexState::Comment => {
            if c == '\n' {
                LexStep::Next(lex_goto(g, LexState::AssignmentList))
            } else {
                LexStep::Next(g)
            }
        },
        LexState::AssignmentName => {
            if c == '=' {
                LexStep::Next(lex_goto(lex_flush(g, TokenKind::Assign), LexState::AssignmentValue))
            } else if spec_is_identifier_char(c) {
                LexStep::Next(lex_buffer(g, c))
            } else {
                LexStep::Fail(SpecErrorKind::InvalidCharacter(c), cur_pos(g))
            }
        },
        LexState::AssignmentValue => {
            if spec_is_wsnl(c) {
                LexStep::Next(
                    lex_goto(lex_flush(g, TokenKind::Characters), LexState::AssignmentList),
                )
            } else if c == '\\' {
                LexStep::Next(lex_goto(g, LexState::AssignmentValueEscape))
            } else if c == '\'' {
                LexStep::Next(
                    lex_goto(lex_push_ret(Lex { squote: cur_pos(g), ..g }), LexState::SingleQuoted),
                )
            } else if c == '"' {
                LexStep::Next(
                    lex_goto(
                        lex_push_ret(Lex { dquotes: g.dquotes.push(cur_pos(g)), ..g }),
                        LexState::DoubleQuoted,
                    ),
                )
            } else if c == '$' {
                LexStep::Next(lex_goto(lex_push_ret(g), LexState::Dollar))
            } else if c == '`' {
                LexStep::Fail(SpecErrorKind::UnsupportedCommandExpansion, cur_pos(g))
            } else if spec_is_shell_special_char(c) {
                LexStep::Fail(SpecErrorKind::UnescapedSpecialCharacter(c), cur_pos(g))
            } else {
                LexStep::Next(lex_buffer(g, c))
            }
        },
        LexState::AssignmentValueEscape => {
            if c == '\n' {
                LexStep::Next(lex_goto(g, LexState::AssignmentValue))
            } else {
                LexStep::Next(lex_goto(lex_buffer(g, c), LexState::AssignmentValue))
            }
        },
        LexState::SingleQuoted => {
            if c == '\'' {
                LexStep::Next(lex_pop_ret(g))
            } else {
                LexStep::Next(lex_buffer(g, c))
            }
        },
        LexState::DoubleQuoted => {
            if c == '`' {
                LexStep::Fail(SpecErrorKind::UnsupportedCommandExpansion, cur_pos(g))
            } else if c == '"' {
                LexStep::Next(lex_pop_ret(Lex { dquotes: seq_pop(g.dquotes), ..g }))
            } else if c == '\\' {
                LexStep::Next(lex_goto(g, LexState::DoubleQuotedEscape))
            } else if c == '$' {
                LexStep::Next(lex_goto(lex_push_ret(g), LexState::Dollar))
            } else {
                LexStep::Next(lex_buffer(g, c))
            }
        },
        LexState::DoubleQuotedEscape => {
            if c == '\n' {
                LexStep::Next(lex_goto(g, LexState::DoubleQuoted))
            } else if spec_is_dq_escape(c) {
                LexStep::Next(lex_goto(lex_buffer(g, c), LexState::DoubleQuoted))
            } else {
                LexStep::Next(lex_goto(lex_buffer(lex_buffer(g, '\\'), c), LexState::DoubleQuoted))
            }
        },
        LexState::Dollar => {
            if spec_is_shell_special_param(c) {
                LexStep::Fail(
                    SpecErrorKind::UnsupportedShellParameter(seq!['$', c]),
                    cur_pos(g),
                )
            } else if c == '(' {
                LexStep::Fail(SpecErrorKind::UnsupportedCommandOrArithmeticExpansion, cur_pos(g))
            } else if c == '{' {
                LexStep::Next(
                    lex_goto(
                        lex_flush(Lex { exps: g.exps.push(cur_pos(g)), ..g }, TokenKind::Characters),
                        LexState::ComplexExpansionStart,
                    ),
                )
            } else if spec_is_identifier_char(c) {
                LexStep::Next(
                    lex_goto(
                        lex_buffer(lex_flush(g, TokenKind::Characters), c),
                        LexState::SimpleExpansion,
                    ),
                )
            } else if g.ret.len() > 0 {
                lex_char(lex_pop_ret(lex_buffer(g, '$')), c)
            } else {
                LexStep::Fail(SpecErrorKind::Eof, eof_pos(g))
            }
        },
        LexState::SimpleExpansion => {
            if spec_is_identifier_char(c) {
                LexStep::Next(lex_buffer(g, c))
            } else if g.ret.len() > 0 {
                lex_char(lex_pop_ret(lex_flush(g, TokenKind::SimpleExpansion)), c)
            } else {
                LexStep::Fail(SpecErrorKind::Eof, eof_pos(g))
            }
        },
        LexState::ComplexExpansionStart => {
            if spec_is_shell_special_param(c) {
                LexStep::Fail(
                    SpecErrorKind::UnsupportedShellParameter(seq!['$', '{', c, '}']),
                    cur_pos(g),
                )
            } else if spec_is_identifier_start(c) {
                LexStep::Next(lex_goto(lex_buffer(g, c), LexState::ComplexExpansion))
            } else {
                LexStep::Fail(SpecErrorKind::InvalidCharacter(c), cur_pos(g))
            }
        },
        LexState::ComplexExpansion => {
            if c == '}' {
                LexStep::Next(
                    lex_pop_ret(
                        lex_flush(
                            Lex { exps: seq_pop(g.exps), ..g },
                            TokenKind::SimpleExpansion,
                        ),
                    ),
                )
            } else if spec_is_identifier_char(c) {
                LexStep::Next(lex_buffer(g, c))
            } else if c == ':' {
                LexStep::Next(
                    lex_goto(
                        lex_buffer(lex_flush(g, TokenKind::StartExpansion), ':'),
                        LexState::ExpansionOperator,
                    ),
                )
            } else if spec_is_operator(c) {
                LexStep::Next(
                    lex_goto(
                        lex_emit(
                            lex_flush(g, TokenKind::StartExpansion),
                            TokenKind::ExpansionOperator,
                            seq![c],
                        ),
                        LexState::ExpansionValue,
                    ),
                )
            } else {
                LexStep::Fail(SpecErrorKind::InvalidCharacter(c), cur_pos(g))
            }
        },
        LexState::ExpansionOperator => {
            if spec_is_operator(c) {
                LexStep::Next(
                    lex_goto(
                        lex_flush(lex_buffer(g, c), TokenKind::ExpansionOperator),
                        LexState::ExpansionValue,
                    ),
                )
            } else {
                LexStep::Fail(SpecErrorKind::InvalidCharacter(c), cur_pos(g))
            }
        },
        LexState::ExpansionValue => {
            if c == '`' {
                LexStep::Fail(SpecErrorKind::UnsupportedCommandExpansion, cur_pos(g))
            } else if c == '}' {
                LexStep::Next(
                    lex_pop_ret(
                        lex_emit(
                            lex_flush(
                                Lex { exps: seq_pop(g.exps), ..g },
                                TokenKind::Characters,
                            ),
                            TokenKind::EndExpansion,
                            seq!['}'],
                        ),
                    ),
                )
            } else if c == '\\' {
                LexStep::Next(lex_goto(g, LexState::ExpansionValueEscape))
            } else if c == '$' {
                LexStep::Next(lex_goto(lex_push_ret(g), LexState::Dollar))
            } else if c == '"' {
                LexStep::Next(
                    lex_goto(
                        lex_push_ret(Lex { dquotes: g.dquotes.push(cur_pos(g)), ..g }),
                        LexState::DoubleQuoted,
                    ),
                )
            } else if c == '\'' {
                if g.dquotes.len() > 0 {
                    LexStep::Next(lex_buffer(g, '\''))
                } else {
                    LexStep::Next(
                        lex_goto(
                            lex_push_ret(Lex { squote: cur_pos(g), ..g }),
                            LexState::SingleQuoted,
                        ),
                    )
                }
            } else {
                LexStep::Next(lex_buffer(g, c))
            }
        },
        LexState::ExpansionValueEscape => {
            if c == '\n' {
                LexStep::Next(lex_goto(g, LexState::ExpansionValue))
            } else if spec_is_dq_escape(c) {
                LexStep::Next(lex_goto(lex_buffer(g, c), LexState::ExpansionValue))
            } else if g.dquotes.len() > 0 {
                LexStep::Next(
                    lex_goto(lex_buffer(lex_buffer(g, '\\'), c), LexState::ExpansionValue),
                )
            } else {
                LexStep::Next(lex_goto(lex_buffer(g, c), LexState::ExpansionValue))
            }
        },
    }
}

/// A continuing transition never moves the source position: only the
/// run loop advances it.
pub proof fn lemma_lex_char_keeps_pos(g: Lex, c: char)
    ensures
        match lex_char(g, c) {
            LexStep::Next(g2) => g2.line == g.line && g2.column == g.column,
            _ => true,
        },
    decreases g.ret.len(),
{
    match g.state {
        LexState::Dollar => {
            if !spec_is_shell_special_param(c) && c != '(' && c != '{'
                && !spec_is_identifier_char(c) && g.ret.len() > 0 {
                lemma_lex_char_keeps_pos(lex_pop_ret(lex_buffer(g, '$')), c);
            }
        },
        LexState::SimpleExpansion => {
            if !spec_is_identifier_char(c) && g.ret.len() > 0 {
                lemma_lex_char_keeps_pos(lex_pop_ret(lex_flush(g, TokenKind::SimpleExpansion)), c);
            }
        },
        _ => {},
    }
}

/// The transition at end of input: every state either finishes with the
/// final token sequence or fails. Never yields `Next`.
pub open spec fn lex_eof(g: Lex) -> LexStep
    decreases g.ret.len(),
{
    match g.state {
        LexState::AssignmentList => LexStep::Done(lex_emit_eof(g)),
        LexState::Comment => LexStep::Done(lex_emit_eof(g)),
        LexState::AssignmentName => LexStep::Fail(SpecErrorKind::Eof, eof_pos(g)),
        LexState::AssignmentValue => LexStep::Done(
            lex_emit_eof(lex_flush(g, TokenKind::Characters)),
        ),
        LexState::AssignmentValueEscape => LexStep::Done(
            lex_emit_eof(lex_flush(lex_buffer(g, '\\'), TokenKind::Characters)),
        ),
        LexState::SingleQuoted => LexStep::Fail(
            SpecErrorKind::UnterminatedSingleQuotedString,
            g.squote,
        ),
        LexState::DoubleQuoted => lex_fail_dquote(g),
        LexState::DoubleQuotedEscape => lex_fail_dquote(g),
        LexState::Dollar => {
            if g.ret.len() > 0 {
                lex_eof(lex_pop_ret(lex_buffer(g, '$')))
            } else {
                LexStep::Fail(SpecErrorKind::Eof, eof_pos(g))
            }
        },
        LexState::SimpleExpansion => {
            if g.ret.len() > 0 {
                lex_eof(lex_pop_ret(lex_flush(g, TokenKind::SimpleExpansion)))
            } else {
                LexStep::Fail(SpecErrorKind::Eof, eof_pos(g))
            }
        },
        LexState::ComplexExpansionStart => LexStep::Fail(SpecErrorKind::Eof, eof_pos(g)),
        LexState::ComplexExpansion => lex_fail_expansion(g),
        LexState::ExpansionOperator => LexStep::Fail(SpecErrorKind::Eof, eof_pos(g)),
        LexState::ExpansionValue => lex_fail_expansion(g),
        LexState::ExpansionValueEscape => lex_fail_expansion(g),
    }
}

/// Run the machine over the remaining input. Each character first
/// advances the position; a NUL character is an error in every state.
pub open spec fn lex_run(g: Lex, rest: Seq<char>) -> Result<Seq<SpecToken>, SpecSyntaxError>
    decreases rest.len(),
{
    if rest.len() == 0 {
        match lex_eof(g) {
            LexStep::Done(ts) => Ok(ts),
            LexStep::Fail(k, p) => Err(SpecSyntaxError { kind: k, pos: p }),
            LexStep::Next(_) => Ok(Seq::empty()),
        }
    } else {
        let c = rest[0];
        let g1 = lex_advance(g, c);
        if c == '\0' {
            Err(SpecSyntaxError { kind: SpecErrorKind::NullCharacter, pos: cur_pos(g1) })
        } else {
            match lex_char(g1, c) {
                LexStep::Next(g2) => lex_run(g2, rest.drop_first()),
                LexStep::Fail(k, p) => Err(SpecSyntaxError { kind: k, pos: p }),
                LexStep::Done(ts) => Ok(ts),
            }
        }
    }
}

/// What tokenizing an input yields: the token sequence of the machine
/// run from its initial configuration, or the syntax error it stops on.
pub open spec fn spec_tokenize(input: Seq<char>) -> Result<Seq<SpecToken>, SpecSyntaxError> {
    lex_run(initial_lex(), input)
}

// ---------------------------------------------------------------------
// The executable machine
// ---------------------------------------------------------------------

/// The view of an optional source name.
pub open spec fn file_view(o: &Option<String>) -> Option<Seq<char>> {
    match o {
        Some(f) => Some(f@),
        None => None,
    }
}

/// Relies on `String: FromIterator<char>`: collecting the characters of
/// the vector yields the string of exactly those characters in order.
#[verifier::external_body]
fn chars_to_string(v: &Vec<char>) -> (s: String)
    ensures
        s@ == v@,
{
    v.iter().collect()
}

/// The tokenizer. Build one with [`Tokenizer::new`], then call
/// [`Tokenizer::tokenize`] for the full token sequence or the syntax
/// error the input stops on.
#[derive(Debug)]
pub struct Tokenizer {
    input: Vec<char>,
    filename: Option<String>,
    state: LexState,
    return_states: Vec<LexState>,
    buf: Vec<char>,
    buf_pos: Position,
    line: usize,
    column: usize,
    single_quote_pos: Position,
    quoting_stack: Vec<Position>,
    expansion_stack: Vec<Position>,
    out: Vec<Token>,
}

impl Tokenizer {
    /// The machine configuration this tokenizer is in.
    pub closed spec fn cfg(&self) -> Lex {
        Lex {
            state: self.state,
            ret: self.return_states@,
            buf: self.buf@,
            buf_pos: self.buf_pos@,
            line: self.line as nat,
            column: self.column as nat,
            squote: self.single_quote_pos@,
            dquotes: positions_view(self.quoting_stack@),
            exps: positions_view(self.expansion_stack@),
            out: tokens_view(self.out@),
        }
    }

    /// The characters this tokenizer reads.
    pub closed spec fn input_view(&self) -> Seq<char> {
        self.input@
    }

    /// The name errors are reported under.
    pub closed spec fn spec_filename(&self) -> Option<Seq<char>> {
        file_view(&self.filename)
    }

    pub fn new(input: &str, filename: Option<String>) -> (r: Self)
        requires
            input@.len() < usize::MAX,
        ensures
            r.cfg() == initial_lex(),
            r.input_view() == input@,
            r.spec_filename() == file_view(&filename),
    {
        let n = input.unicode_len();
        let mut chars: Vec<char> = Vec::new();
        let mut j: usize = 0;
        while j < n
            invariant
                j <= n,
                n as nat == input@.len(),
                chars@ == input@.subrange(0, j as int),
            decreases n - j,
        {
            chars.push(input.get_char(j));
            j += 1;
            proof {
                assert(chars@ =~= input@.subrange(0, j as int));
            }
        }
        proof {
            assert(chars@ =~= input@);
        }
        let r = Tokenizer {
            input: chars,
            filename,
            state: LexState::AssignmentList,
            return_states: Vec::new(),
            buf: Vec::new(),
            buf_pos: Position::new(0, 0),
            line: 1,
            column: 0,
            single_quote_pos: Position::new(0, 0),
            quoting_stack: Vec::new(),
            expansion_stack: Vec::new(),
            out: Vec::new(),
        };
        proof {
            assert(r.cfg() =~= initial_lex());
        }
        r
    }

    fn clone_filename(&self) -> (r: Option<String>)
        ensures
            file_view(&r) == self.spec_filename(),
    {
        match &self.filename {
            Some(f) => Some(f.clone()),
            None => None,
        }
    }

    /// Build a syntax error at the current position.
    fn err(&self, kind: ErrorKind) -> (e: SyntaxError)
        ensures
            e@ == (SpecSyntaxError { kind: kind@, pos: cur_pos(self.cfg()) }),
            e.spec_file() == self.spec_filename(),
    {
        SyntaxError::new(kind, Position::new(self.line, self.column), self.clone_filename())
    }

    /// Build a syntax error at a recorded position.
    fn err_at(&self, kind: ErrorKind, pos: Position) -> (e: SyntaxError)
        ensures
            e@ == (SpecSyntaxError { kind: kind@, pos: pos@ }),
            e.spec_file() == self.spec_filename(),
    {
        SyntaxError::new(kind, pos, self.clone_filename())
    }

    /// Build an unexpected-end-of-input error, pointing one past the
    /// last character.
    fn err_eof(&self) -> (e: SyntaxError)
        requires
            self.column < usize::MAX,
        ensures
            e@ == (SpecSyntaxError { kind: SpecErrorKind::Eof, pos: eof_pos(self.cfg()) }),
            e.spec_file() == self.spec_filename(),
    {
        SyntaxError::new(
            ErrorKind::Eof,
            Position::new(self.line, self.column + 1),
            self.clone_filename(),
        )
    }

    /// Append `c` to the accumulation buffer.
    fn buffer(&mut self, c: char)
        ensures
            final(self).cfg() == lex_buffer(old(self).cfg(), c),
            final(self).input_view() == old(self).input_view(),
            final(self).spec_filename() == old(self).spec_filename(),
            final(self).column == old(self).column,
    {
        if self.buf.len() == 0 {
            self.buf_pos = Position::new(self.line, self.column);
        }
        self.buf.push(c);
        proof {
            assert(self.cfg() =~~= lex_buffer(old(self).cfg(), c));
        }
    }

    /// Flush the buffer as a token of the given kind.
    fn flush_buffer(&mut self, kind: TokenKind)
        ensures
            final(self).cfg() == lex_flush(old(self).cfg(), kind),
            final(self).input_view() == old(self).input_view(),
            final(self).spec_filename() == old(self).spec_filename(),
            final(self).column == old(self).column,
    {
        if self.buf.len() > 0 {
            let value = chars_to_string(&self.buf);
            self.out.push(Token::new(kind, value, self.buf_pos));
            self.buf.clear();
            proof {
                assert(self.cfg() =~~= lex_flush(old(self).cfg(), kind));
            }
        } else {
            proof {
                assert(self.cfg() =~~= lex_flush(old(self).cfg(), kind));
            }
        }
    }

    /// Emit a token with the given payload at the current position.
    fn emit(&mut self, kind: TokenKind, value: String)
        ensures
            final(self).cfg() == lex_emit(old(self).cfg(), kind, value@),
            final(self).input_view() == old(self).input_view(),
            final(self).spec_filename() == old(self).spec_filename(),
            final(self).column == old(self).column,
    {
        let pos = Position::new(self.line, self.column);
        self.out.push(Token::new(kind, value, pos));
        proof {
            assert(self.cfg() =~~= lex_emit(old(self).cfg(), kind, value@));
        }
    }

    /// Push the current state on the return-state stack.
    fn push_ret(&mut self)
        ensures
            final(self).cfg() == lex_push_ret(old(self).cfg()),
            final(self).input_view() == old(self).input_view(),
            final(self).spec_filename() == old(self).spec_filename(),
            final(self).column == old(self).column,
    {
        self.return_states.push(self.state);
        proof {
            assert(self.cfg() =~~= lex_push_ret(old(self).cfg()));
        }
    }

    /// Pop the return-state stack and resume in the popped state;
    /// reports whether a state was there to pop.
    fn pop_ret(&mut self) -> (ok: bool)
        ensures
            final(self).input_view() == old(self).input_view(),
            final(self).spec_filename() == old(self).spec_filename(),
            final(self).column == old(self).column,
            ok == (old(self).cfg().ret.len() > 0),
            final(self).cfg() == lex_pop_ret(old(self).cfg()),
    {
        match self.return_states.pop() {
            Some(s) => {
                self.state = s;
                proof {
                    assert(self.cfg() =~~= lex_pop_ret(old(self).cfg()));
                }
                true
            },
            None => {
                proof {
                    assert(self.cfg() =~~= old(self).cfg());
                }
                false
            },
        }
    }

    /// Switch to `s`.
    fn set_state(&mut self, s: LexState)
        ensures
            final(self).cfg() == lex_goto(old(self).cfg(), s),
            final(self).input_view() == old(self).input_view(),
            final(self).spec_filename() == old(self).spec_filename(),
            final(self).column == old(self).column,
    {
        self.state = s;
        proof {
            assert(self.cfg() =~~= lex_goto(old(self).cfg(), s));
        }
    }

    /// Record the opening position of a single-quoted literal.
    fn set_squote(&mut self)
        ensures
            final(self).cfg() == (Lex { squote: cur_pos(old(self).cfg()), ..old(self).cfg() }),
            final(self).input_view() == old(self).input_view(),
            final(self).spec_filename() == old(self).spec_filename(),
            final(self).column == old(self).column,
    {
        self.single_quote_pos = Position::new(self.line, self.column);
        proof {
            assert(self.cfg() =~~= (Lex { squote: cur_pos(old(self).cfg()), ..old(self).cfg() }));
        }
    }

    /// Push the opening position of a double-quoted string.
    fn push_dquote(&mut self)
        ensures
            final(self).cfg() == (Lex {
                dquotes: old(self).cfg().dquotes.push(cur_pos(old(self).cfg())),
                ..old(self).cfg()
            }),
            final(self).input_view() == old(self).input_view(),
            final(self).spec_filename() == old(self).spec_filename(),
            final(self).column == old(self).column,
    {
        self.quoting_stack.push(Position::new(self.line, self.column));
        proof {
            assert(self.cfg() =~~= (Lex {
                dquotes: old(self).cfg().dquotes.push(cur_pos(old(self).cfg())),
                ..old(self).cfg()
            }));
        }
    }

    /// Push the opening position of a `${` expansion.
    fn push_expansion(&mut self)
        ensures
            final(self).cfg() == (Lex {
                exps: old(self).cfg().exps.push(cur_pos(old(self).cfg())),
                ..old(self).cfg()
            }),
            final(self).input_view() == old(self).input_view(),
            final(self).spec_filename() == old(self).spec_filename(),
            final(self).column == old(self).column,
    {
        self.expansion_stack.push(Position::new(self.line, self.column));
        proof {
            assert(self.cfg() =~~= (Lex {
                exps: old(self).cfg().exps.push(cur_pos(old(self).cfg())),
                ..old(self).cfg()
            }));
        }
    }

    /// Pop the `${` expansion stack.
    fn pop_expansion(&mut self)
        ensures
            final(self).cfg() == (Lex {
                exps: seq_pop(old(self).cfg().exps),
                ..old(self).cfg()
            }),
            final(self).input_view() == old(self).input_view(),
            final(self).spec_filename() == old(self).spec_filename(),
            final(self).column == old(self).column,
    {
        let _ = self.expansion_stack.pop();
        proof {
            assert(self.cfg() =~~= (Lex { exps: seq_pop(old(self).cfg().exps), ..old(self).cfg() }));
        }
    }

    /// Pop the double-quote stack.
    fn pop_dquote(&mut self)
        ensures
            final(self).cfg() == (Lex {
                dquotes: seq_pop(old(self).cfg().dquotes),
                ..old(self).cfg()
            }),
            final(self).input_view() == old(self).input_view(),
            final(self).spec_filename() == old(self).spec_filename(),
            final(self).column == old(self).column,
    {
        let _ = self.quoting_stack.pop();
        proof {
            assert(self.cfg() =~~= (Lex {
                dquotes: seq_pop(old(self).cfg().dquotes),
                ..old(self).cfg()
            }));
        }
    }
}

/// The contract of one executable transition on a character: the input
/// and filename are kept, and the outcome agrees with the mathematical
/// machine's transition.
spec fn char_step_ok(pre: Tokenizer, post: Tokenizer, r: Option<SyntaxError>, c: char) -> bool {
    &&& post.input_view() == pre.input_view()
    &&& post.spec_filename() == pre.spec_filename()
    &&& post.column == pre.column
    &&& match lex_char(pre.cfg(), c) {
        LexStep::Next(g2) => r is None && post.cfg() == g2,
        LexStep::Fail(k, p) => match r {
            Some(e) => e@ == (SpecSyntaxError { kind: k, pos: p }) && e.spec_file()
                == pre.spec_filename(),
            None => false,
        },
        LexStep::Done(_) => false,
    }
}

impl Tokenizer {
    fn st_assignment_list(&mut self, c: char) -> (r: Option<SyntaxError>)
        requires
            old(self).cfg().state == LexState::AssignmentList,
        ensures
            char_step_ok(*old(self), *final(self), r, c),
    {
        if is_wsnl(c) {
            None
        } else if c == '#' {
            self.set_state(LexState::Comment);
            None
        } else if is_identifier_start(c) {
            self.buffer(c);
            self.set_state(LexState::AssignmentName);
            None
        } else {
            Some(self.err(ErrorKind::InvalidCharacter(c)))
        }
    }

    fn st_comment(&mut self, c: char) -> (r: Option<SyntaxError>)
        requires
            old(self).cfg().state == LexState::Comment,
        ensures
            char_step_ok(*old(self), *final(self), r, c),
    {
        if c == '\n' {
            self.set_state(LexState::AssignmentList);
        }
        None
    }

    fn st_assignment_name(&mut self, c: char) -> (r: Option<SyntaxError>)
        requires
            old(self).cfg().state == LexState::AssignmentName,
        ensures
            char_step_ok(*old(self), *final(self), r, c),
    {
        if c == '=' {
            self.flush_buffer(TokenKind::Assign);
            self.set_state(LexState::AssignmentValue);
            None
        } else if is_identifier_char(c) {
            self.buffer(c);
            None
        } else {
            Some(self.err(ErrorKind::InvalidCharacter(c)))
        }
    }

    fn st_assignment_value(&mut self, c: char) -> (r: Option<SyntaxError>)
        requires
            old(self).cfg().state == LexState::AssignmentValue,
        ensures
            char_step_ok(*old(self), *final(self), r, c),
    {
        if is_wsnl(c) {
            self.flush_buffer(TokenKind::Characters);
            self.set_state(LexState::AssignmentList);
            None
        } else if c == '\\' {
            self.set_state(LexState::AssignmentValueEscape);
            None
        } else if c == '\'' {
            self.set_squote();
            self.push_ret();
            self.set_state(LexState::SingleQuoted);
            None
        } else if c == '"' {
            self.push_dquote();
            self.push_ret();
            self.set_state(LexState::DoubleQuoted);
            None
        } else if c == '$' {
            self.push_ret();
            self.set_state(LexState::Dollar);
            None
        } else if c == '`' {
            Some(self.err(ErrorKind::UnsupportedCommandExpansion))
        } else if is_shell_special_char(c) {
            Some(self.err(ErrorKind::UnescapedSpecialCharacter(c)))
        } else {
            self.buffer(c);
            None
        }
    }

    fn st_assignment_value_escape(&mut self, c: char) -> (r: Option<SyntaxError>)
        requires
            old(self).cfg().state == LexState::AssignmentValueEscape,
        ensures
            char_step_ok(*old(self), *final(self), r, c),
    {
        if c == '\n' {
            self.set_state(LexState::AssignmentValue);
        } else {
            self.buffer(c);
            self.set_state(LexState::AssignmentValue);
        }
        None
    }

    fn st_single_quoted(&mut self, c: char) -> (r: Option<SyntaxError>)
        requires
            old(self).cfg().state == LexState::SingleQuoted,
        ensures
            char_step_ok(*old(self), *final(self), r, c),
    {
        if c == '\'' {
            let _ = self.pop_ret();
        } else {
            self.buffer(c);
        }
        None
    }

    fn st_double_quoted(&mut self, c: char) -> (r: Option<SyntaxError>)
        requires
            old(self).cfg().state == LexState::DoubleQuoted,
        ensures
            char_step_ok(*old(self), *final(self), r, c),
    {
        if c == '`' {
            Some(self.err(ErrorKind::UnsupportedCommandExpansion))
        } else if c == '"' {
            self.pop_dquote();
            let _ = self.pop_ret();
            None
        } else if c == '\\' {
            self.set_state(LexState::DoubleQuotedEscape);
            None
        } else if c == '$' {
            self.push_ret();
            self.set_state(LexState::Dollar);
            None
        } else {
            self.buffer(c);
            None
        }
    }

    fn st_double_quoted_escape(&mut self, c: char) -> (r: Option<SyntaxError>)
        requires
            old(self).cfg().state == LexState::DoubleQuotedEscape,
        ensures
            char_step_ok(*old(self), *final(self), r, c),
    {
        if c == '\n' {
            self.set_state(LexState::DoubleQuoted);
        } else if is_dq_escape(c) {
            self.buffer(c);
            self.set_state(LexState::DoubleQuoted);
        } else {
            self.buffer('\\');
            self.buffer(c);
            self.set_state(LexState::DoubleQuoted);
        }
        None
    }

    fn st_dollar(&mut self, c: char) -> (r: Option<SyntaxError>)
        requires
            old(self).cfg().state == LexState::Dollar,
            old(self).column < usize::MAX,
        ensures
            char_step_ok(*old(self), *final(self), r, c),
        decreases self.return_states@.len(), 0nat,
    {
        if is_shell_special_param(c) {
            let mut v: Vec<char> = Vec::new();
            v.push('$');
            v.push(c);
            let text = chars_to_string(&v);
            proof {
                assert(text@ =~= seq!['$', c]);
            }
            Some(self.err(ErrorKind::UnsupportedShellParameter(text)))
        } else if c == '(' {
            Some(self.err(ErrorKind::UnsupportedCommandOrArithmeticExpansion))
        } else if c == '{' {
            self.push_expansion();
            self.flush_buffer(TokenKind::Characters);
            self.set_state(LexState::ComplexExpansionStart);
            None
        } else if is_identifier_char(c) {
            self.flush_buffer(TokenKind::Characters);
            self.buffer(c);
            self.set_state(LexState::SimpleExpansion);
            None
        } else {
            self.buffer('$');
            if self.pop_ret() {
                self.step_char(c)
            } else {
                Some(self.err_eof())
            }
        }
    }

    fn st_simple_expansion(&mut self, c: char) -> (r: Option<SyntaxError>)
        requires
            old(self).cfg().state == LexState::SimpleExpansion,
            old(self).column < usize::MAX,
        ensures
            char_step_ok(*old(self), *final(self), r, c),
        decreases self.return_states@.len(), 0nat,
    {
        if is_identifier_char(c) {
            self.buffer(c);
            None
        } else {
            self.flush_buffer(TokenKind::SimpleExpansion);
            if self.pop_ret() {
                self.step_char(c)
            } else {
                Some(self.err_eof())
            }
        }
    }

    fn st_complex_expansion_start(&mut self, c: char) -> (r: Option<SyntaxError>)
        requires
            old(self).cfg().state == LexState::ComplexExpansionStart,
        ensures
            char_step_ok(*old(self), *final(self), r, c),
    {
        if is_shell_special_param(c) {
            let mut v: Vec<char> = Vec::new();
            v.push('$');
            v.push('{');
            v.push(c);
            v.push('}');
            let text = chars_to_string(&v);
            proof {
                assert(text@ =~= seq!['$', '{', c, '}']);
            }
            Some(self.err(ErrorKind::UnsupportedShellParameter(text)))
        } else if is_identifier_start(c) {
            self.buffer(c);
            self.set_state(LexState::ComplexExpansion);
            None
        } else {
            Some(self.err(ErrorKind::InvalidCharacter(c)))
        }
    }

    fn st_complex_expansion(&mut self, c: char) -> (r: Option<SyntaxError>)
        requires
            old(self).cfg().state == LexState::ComplexExpansion,
        ensures
            char_step_ok(*old(self), *final(self), r, c),
    {
        if c == '}' {
            self.pop_expansion();
            self.flush_buffer(TokenKind::SimpleExpansion);
            let _ = self.pop_ret();
            None
        } else if is_identifier_char(c) {
            self.buffer(c);
            None
        } else if c == ':' {
            self.flush_buffer(TokenKind::StartExpansion);
            self.buffer(':');
            self.set_state(LexState::ExpansionOperator);
            None
        } else if is_operator(c) {
            self.flush_buffer(TokenKind::StartExpansion);
            let mut v: Vec<char> = Vec::new();
            v.push(c);
            let text = chars_to_string(&v);
            proof {
                assert(text@ =~= seq![c]);
            }
            self.emit(TokenKind::ExpansionOperator, text);
            self.set_state(LexState::ExpansionValue);
            None
        } else {
            Some(self.err(ErrorKind::InvalidCharacter(c)))
        }
    }

    fn st_expansion_operator(&mut self, c: char) -> (r: Option<SyntaxError>)
        requires
            old(self).cfg().state == LexState::ExpansionOperator,
        ensures
            char_step_ok(*old(self), *final(self), r, c),
    {
        if is_operator(c) {
            self.buffer(c);
            self.flush_buffer(TokenKind::ExpansionOperator);
            self.set_state(LexState::ExpansionValue);
            None
        } else {
            Some(self.err(ErrorKind::InvalidCharacter(c)))
        }
    }

    fn st_expansion_value(&mut self, c: char) -> (r: Option<SyntaxError>)
        requires
            old(self).cfg().state == LexState::ExpansionValue,
        ensures
            char_step_ok(*old(self), *final(self), r, c),
    {
        if c == '`' {
            Some(self.err(ErrorKind::UnsupportedCommandExpansion))
        } else if c == '}' {
            self.pop_expansion();
            self.flush_buffer(TokenKind::Characters);
            let mut v: Vec<char> = Vec::new();
            v.push('}');
            let text = chars_to_string(&v);
            proof {
                assert(text@ =~= seq!['}']);
            }
            self.emit(TokenKind::EndExpansion, text);
            let _ = self.pop_ret();
            None
        } else if c == '\\' {
            self.set_state(LexState::ExpansionValueEscape);
            None
        } else if c == '$' {
            self.push_ret();
            self.set_state(LexState::Dollar);
            None
        } else if c == '"' {
            self.push_dquote();
            self.push_ret();
            self.set_state(LexState::DoubleQuoted);
            None
        } else if c == '\'' {
            if self.quoting_stack.len() > 0 {
                self.buffer('\'');
                None
            } else {
                self.set_squote();
                self.push_ret();
                self.set_state(LexState::SingleQuoted);
                None
            }
        } else {
            self.buffer(c);
            None
        }
    }

    fn st_expansion_value_escape(&mut self, c: char) -> (r: Option<SyntaxError>)
        requires
            old(self).cfg().state == LexState::ExpansionValueEscape,
        ensures
            char_step_ok(*old(self), *final(self), r, c),
    {
        if c == '\n' {
            self.set_state(LexState::ExpansionValue);
        } else if is_dq_escape(c) {
            self.buffer(c);
            self.set_state(LexState::ExpansionValue);
        } else if self.quoting_stack.len() > 0 {
            self.buffer('\\');
            self.buffer(c);
            self.set_state(LexState::ExpansionValue);
        } else {
            self.buffer(c);
            self.set_state(LexState::ExpansionValue);
        }
        None
    }

    /// One executable transition on character `c`, whose position the
    /// tokenizer already holds; agrees with [`lex_char`].
    fn step_char(&mut self, c: char) -> (r: Option<SyntaxError>)
        requires
            old(self).column < usize::MAX,
        ensures
            char_step_ok(*old(self), *final(self), r, c),
        decreases self.return_states@.len(), 1nat,
    {
        match self.state {
            LexState::AssignmentList => self.st_assignment_list(c),
            LexState::Comment => self.st_comment(c),
            LexState::AssignmentName => self.st_assignment_name(c),
            LexState::AssignmentValue => self.st_assignment_value(c),
            LexState::AssignmentValueEscape => self.st_assignment_value_escape(c),
            LexState::SingleQuoted => self.st_single_quoted(c),
            LexState::DoubleQuoted => self.st_double_quoted(c),
            LexState::DoubleQuotedEscape => self.st_double_quoted_escape(c),
            LexState::Dollar => self.st_dollar(c),
            LexState::SimpleExpansion => self.st_simple_expansion(c),
            LexState::ComplexExpansionStart => self.st_complex_expansion_start(c),
            LexState::ComplexExpansion => self.st_complex_expansion(c),
            LexState::ExpansionOperator => self.st_expansion_operator(c),
            LexState::ExpansionValue => self.st_expansion_value(c),
            LexState::ExpansionValueEscape => self.st_expansion_value_escape(c),
        }
    }

    /// Emit the closing `Eof` token, one past the last character.
    fn emit_eof(&mut self)
        requires
            old(self).column < usize::MAX,
        ensures
            final(self).cfg().out == lex_emit_eof(old(self).cfg()),
            final(self).input_view() == old(self).input_view(),
            final(self).spec_filename() == old(self).spec_filename(),
    {
        let pos = Position::new(self.line, self.column + 1);
        self.out.push(Token::new(TokenKind::Eof, String::new(), pos));
        proof {
            assert(self.cfg().out =~~= lex_emit_eof(old(self).cfg()));
        }
    }

    /// Fail with an unterminated double quote, pointing at the most
    /// recent opener.
    fn unterminated_dquote(&mut self) -> (e: SyntaxError)
        requires
            old(self).column < usize::MAX,
        ensures
            final(self).input_view() == old(self).input_view(),
            final(self).spec_filename() == old(self).spec_filename(),
            match lex_fail_dquote(old(self).cfg()) {
                LexStep::Fail(k, p) => e@ == (SpecSyntaxError { kind: k, pos: p })
                    && e.spec_file() == old(self).spec_filename(),
                _ => false,
            },
    {
        match self.quoting_stack.pop() {
            Some(p) => self.err_at(ErrorKind::UnterminatedDoubleQuotedString, p),
            None => self.err_eof(),
        }
    }

    /// Fail with an unterminated expansion, pointing at the most recent
    /// `${` opener.
    fn unterminated_expansion(&mut self) -> (e: SyntaxError)
        requires
            old(self).column < usize::MAX,
        ensures
            final(self).input_view() == old(self).input_view(),
            final(self).spec_filename() == old(self).spec_filename(),
            match lex_fail_expansion(old(self).cfg()) {
                LexStep::Fail(k, p) => e@ == (SpecSyntaxError { kind: k, pos: p })
                    && e.spec_file() == old(self).spec_filename(),
                _ => false,
            },
    {
        match self.expansion_stack.pop() {
            Some(p) => self.err_at(ErrorKind::UnterminatedExpansion, p),
            None => self.err_eof(),
        }
    }

    /// The executable transition at end of input; agrees with
    /// [`lex_eof`].
    fn step_eof(&mut self) -> (r: Result<(), SyntaxError>)
        requires
            old(self).column < usize::MAX,
        ensures
            final(self).input_view() == old(self).input_view(),
            final(self).spec_filename() == old(self).spec_filename(),
            match lex_eof(old(self).cfg()) {
                LexStep::Done(ts) => r is Ok && final(self).cfg().out == ts,
                LexStep::Fail(k, p) => match r {
                    Err(e) => e@ == (SpecSyntaxError { kind: k, pos: p }) && e.spec_file()
                        == old(self).spec_filename(),
                    Ok(_) => false,
                },
                LexStep::Next(_) => false,
            },
        decreases self.return_states@.len(),
    {
        match self.state {
            LexState::AssignmentList => {
                self.emit_eof();
                Ok(())
            },
            LexState::Comment => {
                self.emit_eof();
                Ok(())
            },
            LexState::AssignmentName => Err(self.err_eof()),
            LexState::AssignmentValue => {
                self.flush_buffer(TokenKind::Characters);
                self.emit_eof();
                Ok(())
            },
            LexState::AssignmentValueEscape => {
                self.buffer('\\');
                self.flush_buffer(TokenKind::Characters);
                self.emit_eof();
                Ok(())
            },
            LexState::SingleQuoted => Err(
                self.err_at(ErrorKind::UnterminatedSingleQuotedString, self.single_quote_pos),
            ),
            LexState::DoubleQuoted => Err(self.unterminated_dquote()),
            LexState::DoubleQuotedEscape => Err(self.unterminated_dquote()),
            LexState::Dollar => {
                self.buffer('$');
                if self.pop_ret() {
                    self.step_eof()
                } else {
                    Err(self.err_eof())
                }
            },
            LexState::SimpleExpansion => {
                self.flush_buffer(TokenKind::SimpleExpansion);
                if self.pop_ret() {
                    self.step_eof()
                } else {
                    Err(self.err_eof())
                }
            },
            LexState::ComplexExpansionStart => Err(self.err_eof()),
            LexState::ComplexExpansion => Err(self.unterminated_expansion()),
            LexState::ExpansionOperator => Err(self.err_eof()),
            LexState::ExpansionValue => Err(self.unterminated_expansion()),
            LexState::ExpansionValueEscape => Err(self.unterminated_expansion()),
        }
    }
}

impl Tokenizer {
    /// Tokenize the whole input: the token sequence ending in `Eof`, or
    /// the syntax error the input stops on. The result is exactly what
    /// the mathematical machine yields on the input characters.
    pub fn tokenize(self) -> (r: Result<Vec<Token>, SyntaxError>)
        requires
            self.cfg() == initial_lex(),
            self.input_view().len() < usize::MAX,
        ensures
            match r {
                Ok(toks) => spec_tokenize(self.input_view()) matches Ok(ts)
                    && tokens_view(toks@) == ts,
                Err(e) => spec_tokenize(self.input_view()) matches Err(se) && e@ == se
                    && e.spec_file() == self.spec_filename(),
            },
    {
        let ghost input0 = self.input_view();
        let ghost fname0 = self.spec_filename();
        let mut me = self;
        let mut i: usize = 0;
        proof {
            assert(input0.skip(0) =~= input0);
        }
        #[verifier::loop_isolation(false)]
        loop
            invariant
                i <= input0.len(),
                input0.len() < usize::MAX,
                me.input_view() == input0,
                me.spec_filename() == fname0,
                me.column as nat <= i,
                me.line as nat <= 1 + i,
                lex_run(me.cfg(), input0.skip(i as int)) == spec_tokenize(input0),
            decreases input0.len() - i,
        {
            proof {
                assert(me.cfg().column == me.column as nat);
            }
            if i == me.input.len() {
                proof {
                    assert(input0.skip(i as int) =~= Seq::<char>::empty());
                }
                match me.step_eof() {
                    Ok(()) => {
                        return Ok(me.out);
                    },
                    Err(e) => {
                        return Err(e);
                    },
                }
            }
            let c = me.input[i];
            let ghost pre_step = me.cfg();
            proof {
                assert(input0.skip(i as int)[0] == c);
                assert(input0.skip(i as int).drop_first() =~= input0.skip(i as int + 1));
            }
            if c == '\n' {
                me.line = me.line + 1;
                me.column = 0;
            } else {
                me.column = me.column + 1;
            }
            i = i + 1;
            proof {
                assert(me.cfg() =~~= lex_advance(pre_step, c));
            }
            if c == '\0' {
                return Err(me.err(ErrorKind::NullCharacter));
            }
            proof {
                lemma_lex_char_keeps_pos(me.cfg(), c);
            }
            match me.step_char(c) {
                Some(e) => {
                    return Err(e);
                },
                None => {},
            }
        }
    }
}

} // verus!
