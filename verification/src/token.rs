//! Token model: the kinds of lexemes the tokenizer emits, with their
//! payload and source position.

use vstd::prelude::*;

use crate::pos::Position;

verus! {

/// The kind of a token.
#[derive(Debug, Clone, Copy, PartialEq, Eq, Structural)]
pub enum TokenKind {
    Eof,
    Characters,
    Assign,
    SimpleExpansion,
    StartExpansion,
    ExpansionOperator,
    EndExpansion,
}

/// Mathematical model of a source position: 1-indexed line, column
/// advanced per character and reset to 0 by a newline.
#[verifier::ext_equal]
pub ghost struct SpecPos {
    pub line: nat,
    pub column: nat,
}

impl View for Position {
    type V = SpecPos;

    open spec fn view(&self) -> SpecPos {
        SpecPos { line: self.line as nat, column: self.column as nat }
    }
}

/// Mathematical model of a token: its kind, the lexeme payload as a
/// character sequence, and the position of the start of the lexeme.
#[verifier::ext_equal]
pub ghost struct SpecToken {
    pub kind: TokenKind,
    pub value: Seq<char>,
    pub pos: SpecPos,
}

/// A token: `value` is the lexeme payload (the variable name for
/// `Assign` and the expansion kinds, the operator text for
/// `ExpansionOperator`, accumulated characters for `Characters`, empty
/// for `Eof`), and `position` is the start of the lexeme.
#[derive(Debug, PartialEq, Eq)]
pub struct Token {
    pub kind: TokenKind,
    pub value: String,
    pub position: Position,
}

impl View for Token {
    type V = SpecToken;

    open spec fn view(&self) -> SpecToken {
        SpecToken { kind: self.kind, value: self.value@, pos: self.position@ }
    }
}

/// The views of a sequence of tokens.
pub open spec fn tokens_view(toks: Seq<Token>) -> Seq<SpecToken> {
    toks.map_values(|t: Token| t@)
}

/// The views of a sequence of positions.
pub open spec fn positions_view(ps: Seq<Position>) -> Seq<SpecPos> {
    ps.map_values(|p: Position| p@)
}

impl Token {
    pub fn new(kind: TokenKind, value: String, position: Position) -> (r: Self)
        ensures
            r@ == (SpecToken { kind, value: value@, pos: position@ }),
    {
        Self { kind, value, position }
    }
}

} // verus!
