//! The values the scanner produces: literals, tokens, source locations, and
//! the lexical errors that abort a scan.
//!
//! Each executable type has a mathematical view (`LiteralView`, `TokenView`,
//! `LexErrorView`) over `Seq<char>`, `int` and `nat`; every contract in this
//! crate speaks of those views.

use vstd::prelude::*;

verus! {

/// A concrete value carried by a literal token.
///
/// A float literal carries the exact source text of its numeric run (digits
/// with one `.`); turning that text into a machine float is left to the
/// caller, outside this crate.
#[derive(Debug, PartialEq)]
#[allow(inconsistent_fields)]
pub enum LiteralKind {
    Int { value: i64 },
    Float { text: String },
    Char { value: char },
    Bool { value: bool },
    String { value: String },
}

/// The mathematical value of a [`LiteralKind`].
pub enum LiteralView {
    Int(int),
    Float(Seq<char>),
    Char(char),
    Bool(bool),
    String(Seq<char>),
}

impl View for LiteralKind {
    type V = LiteralView;

    open spec fn view(&self) -> LiteralView {
        match self {
            LiteralKind::Int { value } => LiteralView::Int(*value as int),
            LiteralKind::Float { text } => LiteralView::Float(text@),
            LiteralKind::Char { value } => LiteralView::Char(*value),
            LiteralKind::Bool { value } => LiteralView::Bool(*value),
            LiteralKind::String { value } => LiteralView::String(value@),
        }
    }
}

/// One classified lexical unit.
///
/// Keywords are not distinguished from ordinary identifiers at this layer,
/// with one exception: the spellings `true` and `false` become boolean
/// literals.
#[derive(Debug, PartialEq)]
pub enum Token {
    Plus,
    Minus,
    Multiply,
    Divide,
    Carat,
    LessThan,
    GreaterThan,
    And,
    Eq,
    LParen,
    RParen,
    LBrace,
    RBrace,
    Colon,
    Identifier(String),
    Literal(LiteralKind),
    Semi,
    Arrow,
}

/// The mathematical value of a [`Token`].
pub enum TokenView {
    Plus,
    Minus,
    Multiply,
    Divide,
    Carat,
    LessThan,
    GreaterThan,
    And,
    Eq,
    LParen,
    RParen,
    LBrace,
    RBrace,
    Colon,
    Identifier(Seq<char>),
    Literal(LiteralView),
    Semi,
    Arrow,
}

impl View for Token {
    type V = TokenView;

    open spec fn view(&self) -> TokenView {
        match self {
            Token::Plus => TokenView::Plus,
            Token::Minus => TokenView::Minus,
            Token::Multiply => TokenView::Multiply,
            Token::Divide => TokenView::Divide,
            Token::Carat => TokenView::Carat,
            Token::LessThan => TokenView::LessThan,
            Token::GreaterThan => TokenView::GreaterThan,
            Token::And => TokenView::And,
            Token::Eq => TokenView::Eq,
            Token::LParen => TokenView::LParen,
            Token::RParen => TokenView::RParen,
            Token::LBrace => TokenView::LBrace,
            Token::RBrace => TokenView::RBrace,
            Token::Colon => TokenView::Colon,
            Token::Identifier(name) => TokenView::Identifier(name@),
            Token::Literal(lit) => TokenView::Literal(lit@),
            Token::Semi => TokenView::Semi,
            Token::Arrow => TokenView::Arrow,
        }
    }
}

/// The 0-based source line on which a token's first character appeared.
#[derive(Debug, PartialEq, Eq, Structural, Clone, Copy)]
pub struct Location {
    pub line: usize,
}

/// A lexical error, anchored at the line where scanning failed.
///
/// The scan is abortive: at most one error is ever produced per invocation,
/// and no partial token sequence accompanies it.
#[derive(Debug, PartialEq)]
pub enum LexError {
    /// A character that starts no recognized token class.
    UnexpectedCharacter(char, Location),
    /// A string literal not closed before the end of the input.
    UnterminatedString(Location),
    /// A character literal whose body is empty or longer than one character;
    /// the offending body is carried along.
    InvalidCharacterLiteral(String, Location),
    /// A numeric run that parses neither as a 64-bit signed integer nor as a
    /// float: more than one `.`, or an integer too large for `i64`.
    MalformedNumber(String, Location),
}

/// The mathematical value of a [`LexError`].
pub enum LexErrorView {
    UnexpectedCharacter(char, nat),
    UnterminatedString(nat),
    InvalidCharacterLiteral(Seq<char>, nat),
    MalformedNumber(Seq<char>, nat),
}

impl View for LexError {
    type V = LexErrorView;

    open spec fn view(&self) -> LexErrorView {
        match self {
            LexError::UnexpectedCharacter(c, loc) => LexErrorView::UnexpectedCharacter(
                *c,
                loc.line as nat,
            ),
            LexError::UnterminatedString(loc) => LexErrorView::UnterminatedString(loc.line as nat),
            LexError::InvalidCharacterLiteral(body, loc) => LexErrorView::InvalidCharacterLiteral(
                body@,
                loc.line as nat,
            ),
            LexError::MalformedNumber(text, loc) => LexErrorView::MalformedNumber(
                text@,
                loc.line as nat,
            ),
        }
    }
}

impl LexError {
    /// The line at which the scan failed.
    pub fn line(&self) -> (l: usize)
        ensures
            l as nat == self.spec_line(),
    {
        match self {
            LexError::UnexpectedCharacter(_, loc) => loc.line,
            LexError::UnterminatedString(loc) => loc.line,
            LexError::InvalidCharacterLiteral(_, loc) => loc.line,
            LexError::MalformedNumber(_, loc) => loc.line,
        }
    }

    /// The line a [`LexErrorView`] carries.
    pub open spec fn spec_line(&self) -> nat {
        match self@ {
            LexErrorView::UnexpectedCharacter(_, line) => line,
            LexErrorView::UnterminatedString(line) => line,
            LexErrorView::InvalidCharacterLiteral(_, line) => line,
            LexErrorView::MalformedNumber(_, line) => line,
        }
    }
}

} // verus!
