use simple_pascal::node::{BinOp, CompoundNode, Node, NodeList, UnaryOp};
use simple_pascal::parser::{Parser, ParserErr};
use simple_pascal::token::literal::Literal;
use simple_pascal::token::op::OpKind;

fn exprs_and_trees() -> (Vec<&'static str>, Vec<Node>) {
    (vec![
        r"BEGIN
        END.",
        r"BEGIN
        ;-2;
        END.",
        r"BEGIN
            x:= 2 + 3 * (2 + 3);
            y:= 2 / 2 - 2 + 3 * ((1 + 1) + (1 + 1));
        END.",
        r"BEGIN
            y := 2;
            BEGIN
                a := 3;
                a := a;
                b := 10 + a + 10 * y / 4;
                c := a - b
            END;
            x := 11;
        END."
    ],
    vec![
        CompoundNode::from_list(
            NodeList::from([Node::Empty])
        ),
        CompoundNode::from_list(
            NodeList::from([
                Node::Empty,
                UnaryOp::new(
                    OpKind::Minus,
                    Node::Literal(Literal::Integer(String::from("2")))
                ),
                Node::Empty
            ])
        ),
        CompoundNode::from_list(
            NodeList::from([
                BinOp::new(
                    Node::Ident(String::from("x")),
                    OpKind::AssignEq,
                    BinOp::new(
                        Node::Literal(Literal::Integer(String::from("2"))),
                        OpKind::Plus,
                        BinOp::new(
                            Node::Literal(Literal::Integer(String::from("3"))),
                            OpKind::Star,
                            BinOp::new(
                                Node::Literal(Literal::Integer(String::from("2"))),
                                OpKind::Plus,
                                Node::Literal(Literal::Integer(String::from("3"))),
                            )
                        )
                    )
                ),
                BinOp::new(
                    Node::Ident(String::from("y")),
                    OpKind::AssignEq,
                    BinOp::new(
                        BinOp::new(
                            BinOp::new(
                                Node::Literal(Literal::Integer(String::from("2"))),
                                OpKind::Slash,
                                Node::Literal(Literal::Integer(String::from("2"))),
                            ),
                            OpKind::Minus,
                            Node::Literal(Literal::Integer(String::from("2"))),
                        ),
                        OpKind::Plus,
                        BinOp::new(
                            Node::Literal(Literal::Integer(String::from("3"))),
                            OpKind::Star,
                            BinOp::new(
                                BinOp::new(
                                    Node::Literal(Literal::Integer(String::from("1"))),
                                    OpKind::Plus,
                                    Node::Literal(Literal::Integer(String::from("1"))),
                                ),
                                OpKind::Plus,
                                BinOp::new(
                                    Node::Literal(Literal::Integer(String::from("1"))),
                                    OpKind::Plus,
                                    Node::Literal(Literal::Integer(String::from("1"))),
                                )
                            )
                        )
                    )
                ),
                Node::Empty,
            ])
        ),
        CompoundNode::from_list(
            NodeList::from([
                BinOp::new(
                    Node::Ident(String::from("y")),
                    OpKind::AssignEq,
                    Node::Literal(Literal::Integer(String::from("2")))
                ),
                CompoundNode::from_list(
                    NodeList::from([
                        BinOp::new(
                            Node::Ident(String::from("a")),
                            OpKind::AssignEq,
                            Node::Literal(Literal::Integer(String::from("3")))
                        ),
                        BinOp::new(
                            Node::Ident(String::from("a")),
                            OpKind::AssignEq,
                            Node::Ident(String::from("a")),
                        ),
                        BinOp::new(
                            Node::Ident(String::from("b")),
                            OpKind::AssignEq,
                            BinOp::new(
                                BinOp::new(
                                    Node::Literal(Literal::Integer(String::from("10"))),
                                    OpKind::Plus,
                                    Node::Ident(String::from("a")),
                                ),
                                OpKind::Plus,
                                BinOp::new(
                                    BinOp::new(
                                        Node::Literal(Literal::Integer(String::from("10"))),
                                        OpKind::Star,
                                        Node::Ident(String::from("y")),
                                    ),
                                    OpKind::Slash,
                                    Node::Literal(Literal::Integer(String::from("4"))),
                                )
                            )
                        ),
                        BinOp::new(
                            Node::Ident(String::from("c")),
                            OpKind::AssignEq,
                            BinOp::new(
                                Node::Ident(String::from("a")),
                                OpKind::Minus,
                                Node::Ident(String::from("b")),
                            )
                        )
                    ])
                ),
                BinOp::new(
                    Node::Ident(String::from("x")),
                    OpKind::AssignEq,
                    Node::Literal(Literal::Integer(String::from("11")))
                ),
                Node::Empty
            ])
        )
    ])
}

#[test]
fn parse() {
    let mut parser = Parser::new();

    let (exprs, trees) = exprs_and_trees();

    for (i, expr) in exprs.iter().enumerate() {
        assert_eq!(trees[i], parser.parse(expr).unwrap());
    }
}

#[test]
#[should_panic]
fn invalid_unary_op() {
    let mut parser = Parser::new();
    parser.parse(r"
    BEGIN
    ;+;
    END.
    ").unwrap();
}

#[test]
#[should_panic]
fn miss_delimiter() {
    let mut parser = Parser::new();
    parser.parse(r"
    BEGIN
    END
    ").unwrap();
}

#[test]
#[should_panic]
fn miss_delimiter_end() {
    let mut parser = Parser::new();
    parser.parse(r"
    BEGIN
        BEGIN
        END
        x := 1;
    END.").unwrap();
}

#[test]
#[should_panic]
fn invalid_assignment() {
    let mut parser = Parser::new();
    parser.parse(r"
    BEGIN
        2 := 2;
    END.").unwrap();
}

fn lit(text: &str) -> Node {
    Node::Literal(Literal::Integer(String::from(text)))
}

fn ident(name: &str) -> Node {
    Node::Ident(String::from(name))
}

fn statements(text: &str) -> Vec<Node> {
    match Parser::new().parse(text).unwrap() {
        Node::Compound(block) => block.children,
        other => panic!("not a block: {:?}", other),
    }
}

#[test]
fn product_binds_tighter_than_sum() {
    let body = statements("BEGIN x := 2 + 3 * 4 END.");
    assert_eq!(
        body,
        vec![BinOp::new(
            ident("x"),
            OpKind::AssignEq,
            BinOp::new(lit("2"), OpKind::Plus, BinOp::new(lit("3"), OpKind::Star, lit("4")))
        )]
    );
}

#[test]
fn subtraction_groups_to_the_left() {
    let body = statements("BEGIN x := 10 - 4 - 3 END.");
    assert_eq!(
        body,
        vec![BinOp::new(
            ident("x"),
            OpKind::AssignEq,
            BinOp::new(BinOp::new(lit("10"), OpKind::Minus, lit("4")), OpKind::Minus, lit("3"))
        )]
    );
}

#[test]
fn assignment_groups_to_the_right() {
    let body = statements("BEGIN a := b := 5 END.");
    assert_eq!(
        body,
        vec![BinOp::new(
            ident("a"),
            OpKind::AssignEq,
            BinOp::new(ident("b"), OpKind::AssignEq, lit("5"))
        )]
    );
}

#[test]
fn expression_may_start_with_identifier() {
    let body = statements("BEGIN x := y * 2 + 1 END.");
    assert_eq!(
        body,
        vec![BinOp::new(
            ident("x"),
            OpKind::AssignEq,
            BinOp::new(BinOp::new(ident("y"), OpKind::Star, lit("2")), OpKind::Plus, lit("1"))
        )]
    );
}

#[test]
fn sign_binds_tightest() {
    let body = statements("BEGIN x := -2 * +3 END.");
    assert_eq!(
        body,
        vec![BinOp::new(
            ident("x"),
            OpKind::AssignEq,
            BinOp::new(
                UnaryOp::new(OpKind::Minus, lit("2")),
                OpKind::Star,
                UnaryOp::new(OpKind::Plus, lit("3"))
            )
        )]
    );
}

#[test]
fn empty_block_is_one_empty_statement() {
    assert_eq!(
        Parser::new().parse("BEGIN END."),
        Ok(CompoundNode::from_list(vec![Node::Empty]))
    );
    assert_eq!(statements("BEGIN ; END."), vec![Node::Empty, Node::Empty]);
}

#[test]
fn parsing_twice_gives_the_same_tree() {
    let text = "BEGIN a := 1; BEGIN b := a END; END.";
    let mut parser = Parser::new();
    let first = parser.parse(text);
    let _ = parser.parse("BEGIN");
    let second = parser.parse(text);
    assert!(first.is_ok());
    assert_eq!(first, second);
}

#[test]
fn missing_final_dot_is_missing_token() {
    assert!(matches!(Parser::new().parse("BEGIN END"), Err(ParserErr::MissingToken(_))));
}

#[test]
fn unmatched_begin_is_missing_token() {
    assert!(matches!(
        Parser::new().parse("BEGIN BEGIN x := 1 END."),
        Err(ParserErr::MissingToken(_))
    ));
    assert!(matches!(Parser::new().parse("x := 1 END."), Err(ParserErr::MissingToken(_))));
}

#[test]
fn unclosed_parenthesis_is_token_mismatch() {
    assert!(matches!(
        Parser::new().parse("BEGIN x := (1 + 2 END."),
        Err(ParserErr::TokenMismatch(_))
    ));
}

#[test]
fn literal_target_of_assignment_is_rejected() {
    assert!(matches!(
        Parser::new().parse("BEGIN 2 := 2 END."),
        Err(ParserErr::MissingToken(_))
    ));
}

#[test]
fn operator_on_keyword_is_token_mismatch() {
    assert!(matches!(
        Parser::new().parse("BEGIN x := 1 + END END."),
        Err(ParserErr::TokenMismatch(_))
    ));
}

#[test]
fn dangling_operator_is_invalid_expr() {
    assert_eq!(Parser::new().parse("BEGIN x := 1 * ; END."), Err(ParserErr::InvalidExpr));
}

#[test]
fn text_after_program_is_invalid_expr() {
    assert_eq!(Parser::new().parse("BEGIN END. x"), Err(ParserErr::InvalidExpr));
}

#[test]
fn scanner_failure_is_undefined() {
    assert_eq!(Parser::new().parse("BEGIN x := 1 & 2 END."), Err(ParserErr::Undefined));
}

#[test]
fn stray_close_paren_is_undefined() {
    assert_eq!(Parser::new().parse("BEGIN x := ) END."), Err(ParserErr::Undefined));
}

#[test]
fn non_sign_unary_is_token_mismatch() {
    assert!(matches!(
        Parser::new().parse("BEGIN x := * 2 END."),
        Err(ParserErr::TokenMismatch(_))
    ));
}
