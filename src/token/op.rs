//! Operators.

use vstd::prelude::*;

verus! {

/// How repeated uses of an operator group.
#[derive(Debug, Clone, Copy, PartialEq, Eq, Structural)]
pub enum Fixity {
    Left,
    Right,
    /// Repeated uses do not group at all.
    NonAssoc,
}

#[derive(Debug, Clone, Copy, PartialEq, Eq, Structural)]
pub enum OpKind {
    /// `+`
    Plus,
    /// `-`
    Minus,
    /// `*`
    Star,
    /// `/`
    Slash,
    /// `^`
    Caret,
    /// `%`
    Percent,
    /// `:=`
    AssignEq,
}

pub open spec fn spec_fixity(op: OpKind) -> Fixity {
    if op == OpKind::AssignEq {
        Fixity::Right
    } else {
        Fixity::Left
    }
}

impl OpKind {
    /// Assignment groups to the right; the arithmetic operators to the left.
    pub fn fixity(&self) -> (r: Fixity)
        ensures
            r == spec_fixity(*self),
    {
        match self {
            OpKind::AssignEq => Fixity::Right,
            OpKind::Plus | OpKind::Minus | OpKind::Star | OpKind::Slash | OpKind::Caret
            | OpKind::Percent => Fixity::Left,
        }
    }
}

} // verus!
