//! Syntax error taxonomy: each error carries the kind of fault, the
//! source position it points at, and an optional filename.

use vstd::prelude::*;

use crate::pos::Position;
use crate::token::SpecPos;

verus! {

/// The kinds of syntax faults the tokenizer reports.
#[derive(Debug, Clone, PartialEq, Eq)]
pub enum ErrorKind {
    Eof,
    NullCharacter,
    UnescapedSpecialCharacter(char),
    UnterminatedSingleQuotedString,
    UnterminatedDoubleQuotedString,
    UnsupportedShellParameter(String),
    UnterminatedExpansion,
    UnsupportedCommandExpansion,
    UnsupportedCommandOrArithmeticExpansion,
    InvalidCharacter(char),
}

/// Mathematical model of an error kind; the shell-parameter payload is
/// a character sequence.
pub ghost enum SpecErrorKind {
    Eof,
    NullCharacter,
    UnescapedSpecialCharacter(char),
    UnterminatedSingleQuotedString,
    UnterminatedDoubleQuotedString,
    UnsupportedShellParameter(Seq<char>),
    UnterminatedExpansion,
    UnsupportedCommandExpansion,
    UnsupportedCommandOrArithmeticExpansion,
    InvalidCharacter(char),
}

impl View for ErrorKind {
    type V = SpecErrorKind;

    open spec fn view(&self) -> SpecErrorKind {
        match self {
            ErrorKind::Eof => SpecErrorKind::Eof,
            ErrorKind::NullCharacter => SpecErrorKind::NullCharacter,
            ErrorKind::UnescapedSpecialCharacter(c) => SpecErrorKind::UnescapedSpecialCharacter(*c),
            ErrorKind::UnterminatedSingleQuotedString => SpecErrorKind::UnterminatedSingleQuotedString,
            ErrorKind::UnterminatedDoubleQuotedString => SpecErrorKind::UnterminatedDoubleQuotedString,
            ErrorKind::UnsupportedShellParameter(s) => SpecErrorKind::UnsupportedShellParameter(s@),
            ErrorKind::UnterminatedExpansion => SpecErrorKind::UnterminatedExpansion,
            ErrorKind::UnsupportedCommandExpansion => SpecErrorKind::UnsupportedCommandExpansion,
            ErrorKind::UnsupportedCommandOrArithmeticExpansion => SpecErrorKind::UnsupportedCommandOrArithmeticExpansion,
            ErrorKind::InvalidCharacter(c) => SpecErrorKind::InvalidCharacter(*c),
        }
    }
}

/// Mathematical model of a syntax error: the fault and the position it
/// points at. The filename is carried separately, unchanged, by the
/// tokenizer that produced the error.
pub ghost struct SpecSyntaxError {
    pub kind: SpecErrorKind,
    pub pos: SpecPos,
}

/// A syntax error, pointing at the source position where the fault was
/// detected (for unterminated quotes and expansions: at the opener).
#[derive(Debug, PartialEq, Eq)]
pub struct SyntaxError {
    kind: ErrorKind,
    position: Position,
    filename: Option<String>,
}

impl View for SyntaxError {
    type V = SpecSyntaxError;

    closed spec fn view(&self) -> SpecSyntaxError {
        SpecSyntaxError { kind: self.kind@, pos: self.position@ }
    }
}

impl SyntaxError {
    /// The filename the error was reported for, as a view; `None` when
    /// the source had no name.
    pub closed spec fn spec_file(&self) -> Option<Seq<char>> {
        match self.filename {
            Some(f) => Some(f@),
            None => None,
        }
    }

    pub fn new(kind: ErrorKind, position: Position, filename: Option<String>) -> (r: Self)
        ensures
            r@ == (SpecSyntaxError { kind: kind@, pos: position@ }),
            r.spec_file() == match filename {
                Some(f) => Some(f@),
                None => None::<Seq<char>>,
            },
    {
        Self { kind, position, filename }
    }

    pub fn kind(&self) -> (r: ErrorKind)
        ensures
            r@ == self@.kind,
    {
        match &self.kind {
            ErrorKind::Eof => ErrorKind::Eof,
            ErrorKind::NullCharacter => ErrorKind::NullCharacter,
            ErrorKind::UnescapedSpecialCharacter(c) => ErrorKind::UnescapedSpecialCharacter(*c),
            ErrorKind::UnterminatedSingleQuotedString => ErrorKind::UnterminatedSingleQuotedString,
            ErrorKind::UnterminatedDoubleQuotedString => ErrorKind::UnterminatedDoubleQuotedString,
            ErrorKind::UnsupportedShellParameter(s) => ErrorKind::UnsupportedShellParameter(s.clone()),
            ErrorKind::UnterminatedExpansion => ErrorKind::UnterminatedExpansion,
            ErrorKind::UnsupportedCommandExpansion => ErrorKind::UnsupportedCommandExpansion,
            ErrorKind::UnsupportedCommandOrArithmeticExpansion => ErrorKind::UnsupportedCommandOrArithmeticExpansion,
            ErrorKind::InvalidCharacter(c) => ErrorKind::InvalidCharacter(*c),
        }
    }

    pub fn line(&self) -> (r: usize)
        ensures
            r as nat == self@.pos.line,
    {
        self.position.line
    }

    pub fn column(&self) -> (r: usize)
        ensures
            r as nat == self@.pos.column,
    {
        self.position.column
    }

    pub fn file(&self) -> (r: Option<String>)
        ensures
            match (&r, self.spec_file()) {
                (Some(f), Some(g)) => f@ == g,
                (None, None) => true,
                _ => false,
            },
    {
        match &self.filename {
            Some(f) => Some(f.clone()),
            None => None,
        }
    }
}

} // verus!
