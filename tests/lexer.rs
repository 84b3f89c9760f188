use simple_pascal::lexer::{Lexer, LexerErr};
use simple_pascal::token::delim::{parse_delim, DelimKind};
use simple_pascal::token::keyword::{parse_keyword, Keyword};
use simple_pascal::token::literal::Literal;
use simple_pascal::token::op::{Fixity, OpKind};
use simple_pascal::token::Token;

fn exprs_and_tokens() -> (Vec<&'static str>, Vec<Vec<Token>>) {
    (
        vec![
            "4 +3",
            "BEGIN\nEND.",
            "223 +      5.3",
            "2 + (2 - 4)*2.3",
            "2; 4 + 3;",
            "a :=3;",
            "",
        ],
        vec![
            vec![
                Token::Literal(Literal::Integer(String::from("4"))),
                Token::Op(OpKind::Plus),
                Token::Literal(Literal::Integer(String::from("3"))),
            ],
            vec![
                Token::Keyword(Keyword::Begin),
                Token::Keyword(Keyword::End),
                Token::Delim(DelimKind::Dot),
            ],
            vec![
                Token::Literal(Literal::Integer(String::from("223"))),
                Token::Op(OpKind::Plus),
                Token::Literal(Literal::Float(String::from("5.3"))),
            ],
            vec![
                Token::Literal(Literal::Integer(String::from("2"))),
                Token::Op(OpKind::Plus),
                Token::OpenDelim(DelimKind::Paren),
                Token::Literal(Literal::Integer(String::from("2"))),
                Token::Op(OpKind::Minus),
                Token::Literal(Literal::Integer(String::from("4"))),
                Token::CloseDelim(DelimKind::Paren),
                Token::Op(OpKind::Star),
                Token::Literal(Literal::Float(String::from("2.3"))),
            ],
            vec![
                Token::Literal(Literal::Integer(String::from("2"))),
                Token::Delim(DelimKind::Semicolon),
                Token::Literal(Literal::Integer(String::from("4"))),
                Token::Op(OpKind::Plus),
                Token::Literal(Literal::Integer(String::from("3"))),
                Token::Delim(DelimKind::Semicolon),
            ],
            vec![
                Token::Ident(String::from("a")),
                Token::Op(OpKind::AssignEq),
                Token::Literal(Literal::Integer(String::from("3"))),
                Token::Delim(DelimKind::Semicolon),
            ],
            vec![Token::Eof],
        ],
    )
}

#[test]
fn from() {
    let lexer = Lexer::from("4 + 3");
    let lexer_str =
        "Lexer { current_char: Peekable { iter: Chars(['4', ' ', '+', ' ', '3']), peeked: None } }";

    assert_eq!(lexer_str, format!("{:?}", lexer));
}

#[test]
fn set() {
    let mut lexer = Lexer::from("");
    let mut lexer_str = "Lexer { current_char: Peekable { iter: Chars([]), peeked: None } }";

    assert_eq!(lexer_str, format!("{:?}", lexer));

    lexer.set("4 + 3");
    lexer_str =
        "Lexer { current_char: Peekable { iter: Chars(['4', ' ', '+', ' ', '3']), peeked: None } }";

    assert_eq!(lexer_str, format!("{:?}", lexer));
}

#[test]
fn tokenize_exprs() {
    let mut lexer = Lexer::from("");

    let (exprs, vec_tokens) = exprs_and_tokens();

    for i in 0..exprs.len() {
        lexer.set(exprs[i]);

        println!("{}", exprs[i]);

        for expected_token in &vec_tokens[i] {
            let token = lexer.next().unwrap();
            if token == Token::Eof {
                break;
            }

            assert_eq!(*expected_token, token);
        }
    }
}

#[test]
#[should_panic]
fn fail_tokenization() {
    let mut lexer = Lexer::from("2 & 3");

    loop {
        lexer.next().unwrap();
    }
}

#[test]
fn end_of_input_repeats() {
    let mut lexer = Lexer::from("  x ");
    assert_eq!(lexer.next(), Ok(Token::Ident(String::from("x"))));
    assert_eq!(lexer.next(), Ok(Token::Eof));
    assert_eq!(lexer.next(), Ok(Token::Eof));
}

#[test]
fn trailing_dot_makes_float_with_empty_fraction() {
    let mut lexer = Lexer::from("12.");
    assert_eq!(lexer.next(), Ok(Token::Literal(Literal::Float(String::from("12.")))));
    assert_eq!(lexer.next(), Ok(Token::Eof));
}

#[test]
fn colon_without_equals_is_rejected() {
    let mut lexer = Lexer::from("a : b");
    assert_eq!(lexer.next(), Ok(Token::Ident(String::from("a"))));
    assert_eq!(lexer.next(), Err(LexerErr::UndefinedChar));
}

#[test]
fn keywords_are_case_sensitive() {
    let mut lexer = Lexer::from("begin BEGIN END_ END");
    assert_eq!(lexer.next(), Ok(Token::Ident(String::from("begin"))));
    assert_eq!(lexer.next(), Ok(Token::Keyword(Keyword::Begin)));
    assert_eq!(lexer.next(), Ok(Token::Ident(String::from("END_"))));
    assert_eq!(lexer.next(), Ok(Token::Keyword(Keyword::End)));
}

#[test]
fn words_mix_letters_digits_underscores() {
    let mut lexer = Lexer::from("_a1b2 % 7^x");
    assert_eq!(lexer.next(), Ok(Token::Ident(String::from("_a1b2"))));
    assert_eq!(lexer.next(), Ok(Token::Op(OpKind::Percent)));
    assert_eq!(lexer.next(), Ok(Token::Literal(Literal::Integer(String::from("7")))));
    assert_eq!(lexer.next(), Ok(Token::Op(OpKind::Caret)));
    assert_eq!(lexer.next(), Ok(Token::Ident(String::from("x"))));
}

#[test]
fn unicode_whitespace_is_skipped() {
    let mut lexer = Lexer::from("\u{a0}\t\u{3000}/");
    assert_eq!(lexer.next(), Ok(Token::Op(OpKind::Slash)));
}

#[test]
fn keyword_table() {
    assert_eq!(parse_keyword("BEGIN"), Some(Keyword::Begin));
    assert_eq!(parse_keyword("END"), Some(Keyword::End));
    assert_eq!(parse_keyword("Begin"), None);
    assert_eq!(parse_keyword("ENDS"), None);
    assert_eq!(parse_keyword(""), None);
}

#[test]
fn delimiter_table() {
    assert_eq!(parse_delim('('), Some(DelimKind::Paren));
    assert_eq!(parse_delim(')'), Some(DelimKind::Paren));
    assert_eq!(parse_delim('.'), Some(DelimKind::Dot));
    assert_eq!(parse_delim(';'), Some(DelimKind::Semicolon));
    assert_eq!(parse_delim(','), None);
    assert!(DelimKind::Paren.is_bin_kind());
    assert!(!DelimKind::Semicolon.is_bin_kind());
}

#[test]
fn operator_fixity() {
    assert_eq!(OpKind::AssignEq.fixity(), Fixity::Right);
    assert_eq!(OpKind::Minus.fixity(), Fixity::Left);
    assert_eq!(OpKind::Caret.fixity(), Fixity::Left);
}
