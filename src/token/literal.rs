//! Numeric literals, kept as the text that the scanner read.

use vstd::prelude::*;

verus! {

/// A numeric literal: a run of digits, or two runs joined by a `.`.
#[derive(Debug, Clone, PartialEq, Eq)]
pub enum Literal {
    Integer(String),
    Float(String),
}

/// The text of a literal as a sequence of characters.
pub enum SpecLiteral {
    Integer(Seq<char>),
    Float(Seq<char>),
}

impl View for Literal {
    type V = SpecLiteral;

    open spec fn view(&self) -> SpecLiteral {
        match self {
            Literal::Integer(s) => SpecLiteral::Integer(s@),
            Literal::Float(s) => SpecLiteral::Float(s@),
        }
    }
}

impl Literal {
    /// A copy of the literal.
    pub fn duplicate(&self) -> (r: Literal)
        ensures
            r@ == self@,
    {
        match self {
            Literal::Integer(s) => Literal::Integer(s.clone()),
            Literal::Float(s) => Literal::Float(s.clone()),
        }
    }
}

} // verus!
