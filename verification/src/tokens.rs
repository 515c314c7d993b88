//! The lexical units the scanner produces, and their mathematical models.

use vstd::prelude::*;

verus! {

/// One classified unit of lexical output.
#[derive(PartialEq, Eq, Debug)]
pub enum Token {
    /// A literal `(`.
    OpenParen,
    /// A literal `)`.
    CloseParen,
    /// One whitespace character; runs are never coalesced.
    Whitespace,
    /// A maximal, non-empty run of identifier-valid characters,
    /// carrying the exact captured substring.
    Identifier(String),
    /// Reserved for a future literal-recognition extension;
    /// the current classification rules never produce it.
    Litteral(LitteralKind),
    /// A single character that matched no recognized class.
    InvalidToken,
    /// The terminal marker: produced exactly once, always last,
    /// carrying no source text.
    EOF,
}

/// The classification a future literal token would carry.
#[derive(PartialEq, Eq, Debug)]
pub enum LitteralKind {
    String(String),
    Boolean(String),
    Integer(String),
}

/// The model of a [`Token`]: captured text is a sequence of characters.
pub enum TokenModel {
    OpenParen,
    CloseParen,
    Whitespace,
    Identifier(Seq<char>),
    Litteral(LitteralKindModel),
    InvalidToken,
    EndOfInput,
}

/// The model of a [`LitteralKind`].
pub enum LitteralKindModel {
    String(Seq<char>),
    Boolean(Seq<char>),
    Integer(Seq<char>),
}

impl View for Token {
    type V = TokenModel;

    open spec fn view(&self) -> TokenModel {
        match self {
            Token::OpenParen => TokenModel::OpenParen,
            Token::CloseParen => TokenModel::CloseParen,
            Token::Whitespace => TokenModel::Whitespace,
            Token::Identifier(text) => TokenModel::Identifier(text@),
            Token::Litteral(kind) => TokenModel::Litteral(kind@),
            Token::InvalidToken => TokenModel::InvalidToken,
            Token::EOF => TokenModel::EndOfInput,
        }
    }
}

impl View for LitteralKind {
    type V = LitteralKindModel;

    open spec fn view(&self) -> LitteralKindModel {
        match self {
            LitteralKind::String(text) => LitteralKindModel::String(text@),
            LitteralKind::Boolean(text) => LitteralKindModel::Boolean(text@),
            LitteralKind::Integer(text) => LitteralKindModel::Integer(text@),
        }
    }
}

} // verus!
