//! Delimiters: paired ones such as `(` `)`, and single ones such as `.` `;`.

use vstd::prelude::*;

verus! {

#[derive(Debug, Clone, Copy, PartialEq, Eq, Structural)]
pub enum DelimKind {
    /// `(` and `)`
    Paren,
    // these kinds have no closing partner
    Dot,
    Semicolon,
}

pub open spec fn spec_delim(delim: char) -> Option<DelimKind> {
    if delim == '(' || delim == ')' {
        Some(DelimKind::Paren)
    } else if delim == '.' {
        Some(DelimKind::Dot)
    } else if delim == ';' {
        Some(DelimKind::Semicolon)
    } else {
        None
    }
}

/// The kind of delimiter that `delim` is, if it is one.
pub fn parse_delim(delim: char) -> (r: Option<DelimKind>)
    ensures
        r == spec_delim(delim),
{
    match delim {
        '(' | ')' => Some(DelimKind::Paren),
        '.' => Some(DelimKind::Dot),
        ';' => Some(DelimKind::Semicolon),
        _ => None,
    }
}

impl DelimKind {
    /// Whether this kind comes in an opening and a closing form.
    pub fn is_bin_kind(&self) -> (r: bool)
        ensures
            r == (*self == DelimKind::Paren),
    {
        match self {
            DelimKind::Paren => true,
            _ => false,
        }
    }
}

} // verus!
