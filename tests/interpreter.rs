use std::collections::HashMap;

use simple_pascal::interpreter::{numeral, Interpreter, InterpreterErr, Number};
use simple_pascal::node::{BinOp, CompoundNode, Node};
use simple_pascal::parser::Parser;
use simple_pascal::scope::Scope;
use simple_pascal::token::keyword::Keyword;
use simple_pascal::token::literal::Literal;
use simple_pascal::token::op::OpKind;

#[derive(Debug, Clone, Copy, PartialEq)]
struct Real(f64);

impl Number for Real {
    fn spec_zero() -> Self {
        Real(0.0)
    }

    fn spec_from_literal(text: String) -> Self {
        Real(text.parse().expect("a numeral is a valid f64"))
    }

    fn spec_plus(self, rhs: Self) -> Self {
        Real(self.0 + rhs.0)
    }

    fn spec_minus(self, rhs: Self) -> Self {
        Real(self.0 - rhs.0)
    }

    fn spec_times(self, rhs: Self) -> Self {
        Real(self.0 * rhs.0)
    }

    fn spec_divide(self, rhs: Self) -> Self {
        Real(self.0 / rhs.0)
    }

    fn spec_power(self, rhs: Self) -> Self {
        Real(self.0.powf(rhs.0))
    }

    fn spec_negate(self) -> Self {
        Real(-self.0)
    }

    fn zero() -> Self {
        Self::spec_zero()
    }

    fn from_literal(text: &String) -> Self {
        Self::spec_from_literal(text.clone())
    }

    fn plus(self, rhs: Self) -> Self {
        self.spec_plus(rhs)
    }

    fn minus(self, rhs: Self) -> Self {
        self.spec_minus(rhs)
    }

    fn times(self, rhs: Self) -> Self {
        self.spec_times(rhs)
    }

    fn divide(self, rhs: Self) -> Self {
        self.spec_divide(rhs)
    }

    fn power(self, rhs: Self) -> Self {
        self.spec_power(rhs)
    }

    fn negate(self) -> Self {
        self.spec_negate()
    }
}

fn to_maps(history: Vec<Scope<Real>>) -> Vec<HashMap<String, f64>> {
    history
        .into_iter()
        .map(|scope| scope.into_entries().into_iter().map(|(k, v)| (k, v.0)).collect())
        .collect()
}

fn run(text: &str) -> Result<Vec<HashMap<String, f64>>, InterpreterErr> {
    let ast = Parser::new().parse(text).unwrap();
    Interpreter::<Real>::new().interpret(ast).map(to_maps)
}

fn exprs_and_vars() -> (Vec<&'static str>, Vec<Vec<HashMap<String, f64>>>) {
    (
        vec![
            r"BEGIN
            END.",
            r"BEGIN
            ;-2;
            END.",
            r"BEGIN
                x:= 2 + 3 * (2 + 3);
                y:= 2 / 2 - 2 + 3 * ((1 + 1) + (1 + 1));
            END.",
            r"BEGIN
                y := 2;
                BEGIN
                    a := 3;
                    a := a;
                    b := 10 + a + 10 * y / 4;
                    c := a - b
                END;
                x := 11;
            END.",
        ],
        vec![
            vec![HashMap::default()],
            vec![HashMap::default()],
            vec![HashMap::from([(String::from("x"), 17.0), (String::from("y"), 11.0)])],
            vec![
                HashMap::from([
                    (String::from("a"), 3.0),
                    (String::from("b"), 18.0),
                    (String::from("c"), -15.0),
                ]),
                HashMap::from([(String::from("x"), 11.0), (String::from("y"), 2.0)]),
            ],
        ],
    )
}

#[test]
fn interpret() {
    let mut parser = Parser::new();
    let mut interpreter = Interpreter::<Real>::new();

    let (exprs, vars) = exprs_and_vars();

    for (i, expr) in exprs.iter().enumerate() {
        assert_eq!(
            to_maps(interpreter.interpret(parser.parse(expr).unwrap()).unwrap()),
            vars[i]
        )
    }
}

fn single(text: &str, name: &str) -> f64 {
    let history = run(text).unwrap();
    assert_eq!(history.len(), 1);
    history[0][name]
}

#[test]
fn precedence_in_evaluation() {
    assert_eq!(single("BEGIN x := 2 + 3 * 4 END.", "x"), 14.0);
}

#[test]
fn left_associative_subtraction() {
    assert_eq!(single("BEGIN x := 10 - 4 - 3 END.", "x"), 3.0);
}

#[test]
fn chained_assignment() {
    let history = run("BEGIN a := b := 5 END.").unwrap();
    assert_eq!(
        history,
        vec![HashMap::from([(String::from("a"), 5.0), (String::from("b"), 5.0)])]
    );
}

#[test]
fn power_and_sign() {
    assert_eq!(single("BEGIN x := -2 ^ 3 END.", "x"), -8.0);
    assert_eq!(single("BEGIN x := +(1.5) * 2. END.", "x"), 3.0);
}

#[test]
fn division_by_zero_is_infinite() {
    assert_eq!(single("BEGIN x := 1 / 0 END.", "x"), f64::INFINITY);
}

#[test]
fn inner_block_updates_outer_binding() {
    let history = run("BEGIN y := 1; BEGIN y := 5; z := 2 END END.").unwrap();
    assert_eq!(
        history,
        vec![
            HashMap::from([(String::from("z"), 2.0)]),
            HashMap::from([(String::from("y"), 5.0)]),
        ]
    );
}

#[test]
fn inner_block_sees_outer_and_own_names() {
    let history = run("BEGIN y := 2; BEGIN a := y + 1; a := a * a END; x := y END.").unwrap();
    assert_eq!(history[0], HashMap::from([(String::from("a"), 9.0)]));
    assert_eq!(history[1], HashMap::from([(String::from("x"), 2.0), (String::from("y"), 2.0)]));
}

#[test]
fn name_of_closed_block_is_gone() {
    assert_eq!(
        run("BEGIN BEGIN a := 1 END; b := a END."),
        Err(InterpreterErr::UndefinedIdent)
    );
}

#[test]
fn undefined_identifier() {
    assert_eq!(run("BEGIN x := y + 1 END."), Err(InterpreterErr::UndefinedIdent));
}

#[test]
fn assignment_to_literal_is_invalid() {
    let ast = CompoundNode::from_list(vec![BinOp::new(
        Node::Literal(Literal::Integer(String::from("2"))),
        OpKind::AssignEq,
        Node::Literal(Literal::Integer(String::from("2"))),
    )]);
    assert_eq!(
        Interpreter::<Real>::new().interpret(ast).map(to_maps),
        Err(InterpreterErr::InvalidAssignment)
    );
}

#[test]
fn undefined_identifier_differs_from_invalid_assignment() {
    let undefined = run("BEGIN x := y END.");
    let ast = CompoundNode::from_list(vec![BinOp::new(
        Node::Literal(Literal::Integer(String::from("1"))),
        OpKind::AssignEq,
        Node::Literal(Literal::Integer(String::from("2"))),
    )]);
    let invalid = Interpreter::<Real>::new().interpret(ast).map(to_maps);
    assert_eq!(undefined, Err(InterpreterErr::UndefinedIdent));
    assert_eq!(invalid, Err(InterpreterErr::InvalidAssignment));
    assert_ne!(undefined, invalid);
}

#[test]
fn percent_is_not_evaluated() {
    assert_eq!(run("BEGIN x := 5 % 2 END."), Err(InterpreterErr::InvalidBinOp));
}

#[test]
fn invalid_unary_operator() {
    let ast = CompoundNode::from_list(vec![simple_pascal::node::UnaryOp::new(
        OpKind::Star,
        Node::Literal(Literal::Integer(String::from("2"))),
    )]);
    assert_eq!(
        Interpreter::<Real>::new().interpret(ast).map(to_maps),
        Err(InterpreterErr::InvalidUnaryOp)
    );
}

#[test]
fn invalid_literal_text() {
    let ast = CompoundNode::from_list(vec![Node::Literal(Literal::Integer(String::from("x")))]);
    assert_eq!(
        Interpreter::<Real>::new().interpret(ast).map(to_maps),
        Err(InterpreterErr::InvalidLiteral)
    );
}

#[test]
fn keyword_node_is_undefined() {
    let ast = CompoundNode::from_list(vec![Node::Keyword(Keyword::End)]);
    assert_eq!(
        Interpreter::<Real>::new().interpret(ast).map(to_maps),
        Err(InterpreterErr::UndefinedErr)
    );
}

#[test]
fn assignment_outside_any_block() {
    let ast = BinOp::new(
        Node::Ident(String::from("x")),
        OpKind::AssignEq,
        Node::Literal(Literal::Integer(String::from("1"))),
    );
    assert_eq!(
        Interpreter::<Real>::new().interpret(ast).map(to_maps),
        Err(InterpreterErr::UndefinedErr)
    );
}

#[test]
fn failed_run_leaves_nothing_behind() {
    let mut interpreter = Interpreter::<Real>::new();
    let bad = Parser::new().parse("BEGIN a := 1; BEGIN b := 2 END; c := d END.").unwrap();
    assert_eq!(interpreter.interpret(bad).map(to_maps), Err(InterpreterErr::UndefinedIdent));
    let good = Parser::new().parse("BEGIN x := 1 END.").unwrap();
    assert_eq!(
        interpreter.interpret(good).map(to_maps),
        Ok(vec![HashMap::from([(String::from("x"), 1.0)])])
    );
}

#[test]
fn scope_set_and_get() {
    let mut scope = Scope::<Real>::new();
    let x = String::from("x");
    assert_eq!(scope.get(&x), None);
    scope.set(x.clone(), Real(1.0));
    scope.set(String::from("y"), Real(2.0));
    scope.set(x.clone(), Real(3.0));
    assert!(scope.contains(&x));
    assert_eq!(scope.get(&x), Some(Real(3.0)));
    let entries: Vec<(String, f64)> =
        scope.into_entries().into_iter().map(|(k, v)| (k, v.0)).collect();
    assert_eq!(entries, vec![(String::from("x"), 3.0), (String::from("y"), 2.0)]);
}

#[test]
fn numerals() {
    assert!(numeral(&String::from("12")));
    assert!(numeral(&String::from("12.5")));
    assert!(numeral(&String::from("12.")));
    assert!(!numeral(&String::from("")));
    assert!(!numeral(&String::from(".5")));
    assert!(!numeral(&String::from("1.2.3")));
    assert!(!numeral(&String::from("1e5")));
}

#[test]
fn new_name_stays_in_inner_scope() {
    assert_eq!(
        run("BEGIN y := 1; BEGIN z := 5 END END.").unwrap(),
        vec![
            HashMap::from([(String::from("z"), 5.0)]),
            HashMap::from([(String::from("y"), 1.0)]),
        ]
    );
}

#[test]
fn target_checked_after_right_side() {
    let ast = CompoundNode::from_list(vec![BinOp::new(
        Node::Literal(Literal::Integer(String::from("2"))),
        OpKind::AssignEq,
        Node::Ident(String::from("z")),
    )]);
    assert_eq!(
        Interpreter::<Real>::new().interpret(ast).map(to_maps),
        Err(InterpreterErr::UndefinedIdent)
    );
}
