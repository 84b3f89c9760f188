//! Reserved words.

use vstd::prelude::*;

use crate::chars::chars_of;

verus! {

/// The reserved words of the language.
#[derive(Debug, Clone, Copy, PartialEq, Eq, Structural)]
pub enum Keyword {
    Begin,
    End,
}

/// The keyword that the text spells exactly (case-sensitive), if any.
pub open spec fn spec_keyword(s: Seq<char>) -> Option<Keyword> {
    if s == seq!['B', 'E', 'G', 'I', 'N'] {
        Some(Keyword::Begin)
    } else if s == seq!['E', 'N', 'D'] {
        Some(Keyword::End)
    } else {
        None
    }
}

/// Whether the characters of `v` are those of `w`.
fn same_chars(v: &Vec<char>, w: &[char]) -> (r: bool)
    ensures
        r == (v@ == w@),
{
    if v.len() != w.len() {
        return false;
    }
    let mut i: usize = 0;
    while i < v.len()
        invariant
            v@.len() == w@.len(),
            i <= v@.len(),
            forall|j: int| 0 <= j < i ==> v@[j] == w@[j],
        decreases v@.len() - i,
    {
        if v[i] != w[i] {
            return false;
        }
        i = i + 1;
    }
    assert(v@ =~= w@);
    true
}

/// The keyword spelled by a word of the scanner.
pub fn keyword_of(word: &Vec<char>) -> (r: Option<Keyword>)
    ensures
        r == spec_keyword(word@),
{
    let begin = ['B', 'E', 'G', 'I', 'N'];
    let end = ['E', 'N', 'D'];
    assert(begin@ =~= seq!['B', 'E', 'G', 'I', 'N']);
    assert(end@ =~= seq!['E', 'N', 'D']);
    if same_chars(word, &begin) {
        Some(Keyword::Begin)
    } else if same_chars(word, &end) {
        Some(Keyword::End)
    } else {
        None
    }
}

/// The keyword that `keyword` spells exactly, if any.
pub fn parse_keyword(keyword: &str) -> (r: Option<Keyword>)
    ensures
        r == spec_keyword(keyword@),
{
    let word = chars_of(keyword);
    keyword_of(&word)
}

} // verus!
