//! The tokens that the scanner produces.

pub mod delim;
pub mod keyword;
pub mod literal;
pub mod op;

use vstd::prelude::*;

use delim::DelimKind;
use keyword::Keyword;
use literal::{Literal, SpecLiteral};
use op::OpKind;

verus! {

/// One lexical unit of the source text.
#[derive(Debug, Clone, PartialEq, Eq)]
pub enum Token {
    Ident(String),
    Keyword(Keyword),
    /// The opening half of a paired delimiter such as `(`.
    OpenDelim(DelimKind),
    /// The closing half of a paired delimiter such as `)`.
    CloseDelim(DelimKind),
    /// A delimiter without a partner, such as `.` or `;`.
    Delim(DelimKind),
    Op(OpKind),
    Literal(Literal),
    Eof,
}

/// The mathematical value of a token: its text as a sequence of characters.
pub enum SpecToken {
    Ident(Seq<char>),
    Keyword(Keyword),
    OpenDelim(DelimKind),
    CloseDelim(DelimKind),
    Delim(DelimKind),
    Op(OpKind),
    Literal(SpecLiteral),
    Eof,
}

impl View for Token {
    type V = SpecToken;

    open spec fn view(&self) -> SpecToken {
        match self {
            Token::Ident(s) => SpecToken::Ident(s@),
            Token::Keyword(k) => SpecToken::Keyword(*k),
            Token::OpenDelim(d) => SpecToken::OpenDelim(*d),
            Token::CloseDelim(d) => SpecToken::CloseDelim(*d),
            Token::Delim(d) => SpecToken::Delim(*d),
            Token::Op(o) => SpecToken::Op(*o),
            Token::Literal(l) => SpecToken::Literal(l@),
            Token::Eof => SpecToken::Eof,
        }
    }
}

impl Token {
    /// A copy of the token.
    pub fn duplicate(&self) -> (r: Token)
        ensures
            r@ == self@,
    {
        match self {
            Token::Ident(s) => Token::Ident(s.clone()),
            Token::Keyword(k) => Token::Keyword(*k),
            Token::OpenDelim(d) => Token::OpenDelim(*d),
            Token::CloseDelim(d) => Token::CloseDelim(*d),
            Token::Delim(d) => Token::Delim(*d),
            Token::Op(o) => Token::Op(*o),
            Token::Literal(l) => Token::Literal(l.duplicate()),
            Token::Eof => Token::Eof,
        }
    }
}

} // verus!
