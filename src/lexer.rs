//! The scanner: turns source text into tokens, one per call.

use vstd::prelude::*;

use crate::chars::{chars_of, string_of};
use crate::token::delim::{parse_delim, spec_delim, DelimKind};
use crate::token::keyword::{keyword_of, spec_keyword};
use crate::token::literal::{Literal, SpecLiteral};
use crate::token::op::OpKind;
use crate::token::{SpecToken, Token};

verus! {

/// A character of Unicode's `White_Space` property.
pub open spec fn is_ws(c: char) -> bool {
    ('\u{9}' <= c && c <= '\u{d}') || c == ' ' || c == '\u{85}' || c == '\u{a0}' || c
        == '\u{1680}' || ('\u{2000}' <= c && c <= '\u{200a}') || c == '\u{2028}' || c
        == '\u{2029}' || c == '\u{202f}' || c == '\u{205f}' || c == '\u{3000}'
}

pub open spec fn is_digit(c: char) -> bool {
    '0' <= c && c <= '9'
}

/// A character that may stand in an identifier or a keyword.
pub open spec fn is_word_char(c: char) -> bool {
    is_digit(c) || ('a' <= c && c <= 'z') || ('A' <= c && c <= 'Z') || c == '_'
}

/// The operator written as the single character `c`, if any.
pub open spec fn spec_op(c: char) -> Option<OpKind> {
    if c == '+' {
        Some(OpKind::Plus)
    } else if c == '-' {
        Some(OpKind::Minus)
    } else if c == '*' {
        Some(OpKind::Star)
    } else if c == '/' {
        Some(OpKind::Slash)
    } else if c == '%' {
        Some(OpKind::Percent)
    } else if c == '^' {
        Some(OpKind::Caret)
    } else {
        None
    }
}

/// The text left once leading whitespace is dropped.
pub open spec fn skip_ws(s: Seq<char>) -> Seq<char>
    decreases s.len(),
{
    if s.len() > 0 && is_ws(s[0]) {
        skip_ws(s.drop_first())
    } else {
        s
    }
}

/// The length of the longest prefix of digits.
pub open spec fn digit_run(s: Seq<char>) -> nat
    decreases s.len(),
{
    if s.len() > 0 && is_digit(s[0]) {
        1 + digit_run(s.drop_first())
    } else {
        0
    }
}

/// The length of the longest prefix of word characters.
pub open spec fn word_run(s: Seq<char>) -> nat
    decreases s.len(),
{
    if s.len() > 0 && is_word_char(s[0]) {
        1 + word_run(s.drop_first())
    } else {
        0
    }
}

/// A numeric literal at the start of `t`, which starts with a digit: a maximal run
/// of digits, and if a `.` follows, the `.` and a maximal run of digits after it.
pub open spec fn lex_number(t: Seq<char>) -> (SpecToken, Seq<char>) {
    let n = digit_run(t) as int;
    if t.len() > n && t[n] == '.' {
        let m = digit_run(t.skip(n + 1)) as int;
        (SpecToken::Literal(SpecLiteral::Float(t.take(n + 1 + m))), t.skip(n + 1 + m))
    } else {
        (SpecToken::Literal(SpecLiteral::Integer(t.take(n))), t.skip(n))
    }
}

/// A keyword or an identifier at the start of `t`: a maximal run of word characters.
pub open spec fn lex_word(t: Seq<char>) -> (SpecToken, Seq<char>) {
    let w = t.take(word_run(t) as int);
    let tok = match spec_keyword(w) {
        Some(k) => SpecToken::Keyword(k),
        None => SpecToken::Ident(w),
    };
    (tok, t.skip(word_run(t) as int))
}

/// One step of the scanner on the remaining text `s`: the token read and the
/// text after it, or the error.
pub open spec fn lex(s: Seq<char>) -> Result<(SpecToken, Seq<char>), LexerErr> {
    let t = skip_ws(s);
    if t.len() == 0 {
        Ok((SpecToken::Eof, t))
    } else {
        let c = t[0];
        if spec_op(c) is Some {
            Ok((SpecToken::Op(spec_op(c)->0), t.drop_first()))
        } else if c == ':' {
            if t.len() > 1 && t[1] == '=' {
                Ok((SpecToken::Op(OpKind::AssignEq), t.skip(2)))
            } else {
                Err(LexerErr::UndefinedChar)
            }
        } else if spec_delim(c) is Some {
            let d = spec_delim(c)->0;
            let tok = if d == DelimKind::Paren {
                if c == '(' {
                    SpecToken::OpenDelim(d)
                } else {
                    SpecToken::CloseDelim(d)
                }
            } else {
                SpecToken::Delim(d)
            };
            Ok((tok, t.drop_first()))
        } else if is_digit(c) {
            Ok(lex_number(t))
        } else if is_word_char(c) {
            Ok(lex_word(t))
        } else {
            Err(LexerErr::UndefinedChar)
        }
    }
}

/// The text left after a step of the scanner fails: a `:` without `=` is
/// consumed, any other character that starts no token is not.
pub open spec fn lex_fail_rest(s: Seq<char>) -> Seq<char> {
    let t = skip_ws(s);
    if t.len() > 0 && t[0] == ':' {
        t.drop_first()
    } else {
        t
    }
}

/// Every step of the scanner that reads a token other than the end marker
/// consumes text; the end marker comes only once the text is used up.
pub proof fn lemma_lex_progress(s: Seq<char>)
    ensures
        lex(s) matches Ok((tok, rest)) ==> {
            &&& rest.len() <= s.len()
            &&& tok != SpecToken::Eof ==> rest.len() < s.len()
            &&& tok == SpecToken::Eof ==> rest.len() == 0
        },
{
    lemma_skip_ws_len(s);
    let t = skip_ws(s);
    if t.len() > 0 {
        lemma_digit_run_le(t);
        lemma_word_run_le(t);
        let n = digit_run(t) as int;
        if t.len() > n {
            lemma_digit_run_le(t.skip(n + 1));
        }
    }
}

proof fn lemma_skip_ws_len(s: Seq<char>)
    ensures
        skip_ws(s).len() <= s.len(),
    decreases s.len(),
{
    if s.len() > 0 && is_ws(s[0]) {
        lemma_skip_ws_len(s.drop_first());
    }
}

proof fn lemma_digit_run_le(s: Seq<char>)
    ensures
        digit_run(s) <= s.len(),
        s.len() > 0 && is_digit(s[0]) ==> digit_run(s) >= 1,
    decreases s.len(),
{
    if s.len() > 0 && is_digit(s[0]) {
        lemma_digit_run_le(s.drop_first());
    }
}

proof fn lemma_word_run_le(s: Seq<char>)
    ensures
        word_run(s) <= s.len(),
        s.len() > 0 && is_word_char(s[0]) ==> word_run(s) >= 1,
    decreases s.len(),
{
    if s.len() > 0 && is_word_char(s[0]) {
        lemma_word_run_le(s.drop_first());
    }
}

fn is_whitespace(c: char) -> (r: bool)
    ensures
        r == is_ws(c),
{
    ('\u{9}' <= c && c <= '\u{d}') || c == ' ' || c == '\u{85}' || c == '\u{a0}' || c
        == '\u{1680}' || ('\u{2000}' <= c && c <= '\u{200a}') || c == '\u{2028}' || c
        == '\u{2029}' || c == '\u{202f}' || c == '\u{205f}' || c == '\u{3000}'
}

pub(crate) fn is_ascii_digit(c: char) -> (r: bool)
    ensures
        r == is_digit(c),
{
    '0' <= c && c <= '9'
}

fn is_word(ch: char) -> (r: bool)
    ensures
        r == is_word_char(ch),
{
    ('0' <= ch && ch <= '9') || ('a' <= ch && ch <= 'z') || ('A' <= ch && ch <= 'Z') || ch
        == '_'
}

#[derive(Debug, Clone, Copy, PartialEq, Eq, Structural)]
pub enum LexerErr {
    /// A character that starts no token.
    UndefinedChar,
}

/// The characters not yet read, first one first.
#[derive(Debug)]
pub struct Chars(Vec<char>);

/// The characters not yet read, with room for one that has been looked at.
#[derive(Debug)]
pub struct Peekable {
    iter: Chars,
    peeked: Option<char>,
}

impl View for Peekable {
    type V = Seq<char>;

    closed spec fn view(&self) -> Seq<char> {
        match self.peeked {
            Some(c) => seq![c] + self.iter.0@,
            None => self.iter.0@,
        }
    }
}

impl Peekable {
    fn new(text: &str) -> (r: Peekable)
        ensures
            r@ == text@,
    {
        Peekable { iter: Chars(chars_of(text)), peeked: None }
    }

    /// The next character, left in place.
    fn peek(&mut self) -> (r: Option<char>)
        ensures
            final(self)@ == old(self)@,
            r == (if old(self)@.len() > 0 { Some(old(self)@[0]) } else { None::<char> }),
    {
        if self.peeked.is_none() && self.iter.0.len() > 0 {
            let c = self.iter.0.remove(0);
            self.peeked = Some(c);
            assert(self@ =~= old(self)@);
        }
        self.peeked
    }

    /// The next character, taken out.
    fn next(&mut self) -> (r: Option<char>)
        ensures
            r == (if old(self)@.len() > 0 { Some(old(self)@[0]) } else { None::<char> }),
            final(self)@ == (if old(self)@.len() > 0 { old(self)@.drop_first() } else { old(self)@ }),
    {
        match self.peeked {
            Some(c) => {
                self.peeked = None;
                assert(self@ =~= old(self)@.drop_first());
                Some(c)
            },
            None => {
                if self.iter.0.len() > 0 {
                    let c = self.iter.0.remove(0);
                    assert(self@ =~= old(self)@.drop_first());
                    Some(c)
                } else {
                    None
                }
            },
        }
    }
}

/// The scanner over a text.
#[derive(Debug)]
pub struct Lexer {
    current_char: Peekable,
}

impl View for Lexer {
    type V = Seq<char>;

    /// The text not yet read.
    closed spec fn view(&self) -> Seq<char> {
        self.current_char@
    }
}

impl Lexer {
    /// A scanner at the start of `text`.
    pub fn new(text: &str) -> (r: Lexer)
        ensures
            r@ == text@,
    {
        Lexer { current_char: Peekable::new(text) }
    }

    /// Reads the next token. At the end of the text it reads `Eof`, as often as
    /// it is called.
    pub fn next(&mut self) -> (r: Result<Token, LexerErr>)
        ensures
            match (r, lex(old(self)@)) {
                (Ok(tok), Ok((t, rest))) => tok@ == t && final(self)@ == rest,
                (Err(e), Err(f)) => e == f && final(self)@ == lex_fail_rest(old(self)@),
                _ => false,
            },
    {
        self.skip_whitespace();
        let ghost t = self@;
        match self.current_char.peek() {
            None => Ok(Token::Eof),
            Some(next_char) => {
                if let Some(op) = self.op_kind(next_char) {
                    self.current_char.next();
                    assert(op == OpKind::AssignEq ==> self@ =~= t.skip(2));
                    return Ok(Token::Op(op));
                }
                if next_char == ':' {
                    return Err(LexerErr::UndefinedChar);
                }
                if let Some(delim) = parse_delim(next_char) {
                    self.current_char.next();
                    if delim.is_bin_kind() {
                        if next_char == '(' {
                            return Ok(Token::OpenDelim(delim));
                        }
                        return Ok(Token::CloseDelim(delim));
                    }
                    Ok(Token::Delim(delim))
                } else if is_ascii_digit(next_char) {
                    Ok(Token::Literal(self.number()))
                } else if is_word(next_char) {
                    let word = self.word();
                    match keyword_of(&word) {
                        Some(keyword) => Ok(Token::Keyword(keyword)),
                        None => Ok(Token::Ident(string_of(&word))),
                    }
                } else {
                    Err(LexerErr::UndefinedChar)
                }
            },
        }
    }

    /// Starts over on `text`.
    pub fn set(&mut self, text: &str)
        ensures
            final(self)@ == text@,
    {
        self.current_char = Peekable::new(text);
    }

    fn number(&mut self) -> (r: Literal)
        requires
            old(self)@.len() > 0,
            is_digit(old(self)@[0]),
        ensures
            (SpecToken::Literal(r@), final(self)@) == lex_number(old(self)@),
    {
        let ghost t = self@;
        let mut int_part = self.integer();
        let ghost n = digit_run(t) as int;
        proof {
            lemma_digit_run_le(t);
        }
        match self.current_char.peek() {
            Some('.') => {
                self.current_char.next();
                int_part.push('.');
                let ghost u = self@;
                assert(u =~= t.skip(n + 1));
                let mut frac = self.integer();
                let ghost m = digit_run(u) as int;
                proof {
                    lemma_digit_run_le(u);
                }
                assert(frac@ =~= u.take(m));
                int_part.append(&mut frac);
                assert(int_part@ =~= t.take(n).push('.') + u.take(m));
                assert(int_part@ =~= t.take(n + 1 + digit_run(t.skip(n + 1)) as int));
                assert(self@ =~= t.skip(n + 1 + digit_run(t.skip(n + 1)) as int));
                Literal::Float(string_of(&int_part))
            },
            _ => Literal::Integer(string_of(&int_part)),
        }
    }

    /// Reads the longest run of digits.
    fn integer(&mut self) -> (r: Vec<char>)
        ensures
            r@ == old(self)@.take(digit_run(old(self)@) as int),
            final(self)@ == old(self)@.skip(digit_run(old(self)@) as int),
    {
        let ghost s = self@;
        let mut digits: Vec<char> = Vec::new();
        loop
            invariant
                s == digits@ + self@,
                digit_run(s) == digits@.len() + digit_run(self@),
            ensures
                s == digits@ + self@,
                digit_run(s) == digits@.len() + digit_run(self@),
                self@.len() == 0 || !is_digit(self@[0]),
            decreases self@.len(),
        {
            match self.current_char.peek() {
                Some(ch) => {
                    if is_ascii_digit(ch) {
                        self.current_char.next();
                        digits.push(ch);
                        assert(s =~= digits@ + self@);
                    } else {
                        break ;
                    }
                },
                None => break ,
            }
        }
        assert(digits@ =~= s.take(digit_run(s) as int));
        assert(self@ =~= s.skip(digit_run(s) as int));
        digits
    }

    /// Reads the longest run of word characters.
    fn word(&mut self) -> (r: Vec<char>)
        ensures
            r@ == old(self)@.take(word_run(old(self)@) as int),
            final(self)@ == old(self)@.skip(word_run(old(self)@) as int),
    {
        let ghost s = self@;
        let mut word: Vec<char> = Vec::new();
        loop
            invariant
                s == word@ + self@,
                word_run(s) == word@.len() + word_run(self@),
            ensures
                s == word@ + self@,
                word_run(s) == word@.len() + word_run(self@),
                self@.len() == 0 || !is_word_char(self@[0]),
            decreases self@.len(),
        {
            match self.current_char.peek() {
                Some(ch) => {
                    if is_word(ch) {
                        self.current_char.next();
                        word.push(ch);
                        assert(s =~= word@ + self@);
                    } else {
                        break ;
                    }
                },
                None => break ,
            }
        }
        assert(word@ =~= s.take(word_run(s) as int));
        assert(self@ =~= s.skip(word_run(s) as int));
        word
    }

    fn skip_whitespace(&mut self)
        ensures
            final(self)@ == skip_ws(old(self)@),
    {
        loop
            invariant
                skip_ws(self@) == skip_ws(old(self)@),
            ensures
                skip_ws(self@) == skip_ws(old(self)@),
                self@.len() == 0 || !is_ws(self@[0]),
            decreases self@.len(),
        {
            match self.current_char.peek() {
                Some(ch) => {
                    if is_whitespace(ch) {
                        self.current_char.next();
                    } else {
                        break ;
                    }
                },
                None => break ,
            }
        }
    }

    /// The operator that starts at `ch`, the next character. A `:` is taken out
    /// here, and makes an operator only if `=` follows.
    fn op_kind(&mut self, ch: char) -> (r: Option<OpKind>)
        requires
            old(self)@.len() > 0,
            old(self)@[0] == ch,
        ensures
            ch != ':' ==> r == spec_op(ch) && final(self)@ == old(self)@,
            ch == ':' ==> final(self)@ == old(self)@.drop_first() && r == (if old(self)@.len()
                > 1 && old(self)@[1] == '=' {
                Some(OpKind::AssignEq)
            } else {
                None::<OpKind>
            }),
    {
        match ch {
            '+' => Some(OpKind::Plus),
            '-' => Some(OpKind::Minus),
            '*' => Some(OpKind::Star),
            '/' => Some(OpKind::Slash),
            '%' => Some(OpKind::Percent),
            '^' => Some(OpKind::Caret),
            ':' => {
                self.current_char.next();
                match self.current_char.peek() {
                    Some(c) => {
                        if c == '=' {
                            Some(OpKind::AssignEq)
                        } else {
                            None
                        }
                    },
                    None => None,
                }
            },
            _ => None,
        }
    }
}

impl<'a> From<&'a str> for Lexer {
    fn from(text: &'a str) -> Self {
        Lexer::new(text)
    }
}

impl<'a> vstd::std_specs::convert::FromSpecImpl<&'a str> for Lexer {
    open spec fn obeys_from_spec() -> bool {
        false
    }

    open spec fn from_spec(text: &'a str) -> Lexer {
        arbitrary()
    }
}

} // verus!
