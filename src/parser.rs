//! The recursive-descent parser.
//!
//! The grammar, with one token of lookahead:
//!
//! ```text
//! program        := block '.'
//! block          := 'BEGIN' statement (';' statement)* 'END'
//! statement      := block | ident ':=' assignment | ident expr_tail | expr | (empty)
//! assignment     := ident ':=' assignment | ident expr_tail | expr
//! expr           := term (('+' | '-') term)*
//! term           := factor (('*' | '/' | '%' | '^') factor)*
//! factor         := literal | ident | '(' expr ')' | ('+' | '-') factor
//! ```
//!
//! An empty statement (a separator or an `END` where a statement starts) is
//! `Node::Empty`.

use vstd::prelude::*;

use crate::lexer::{lemma_lex_progress, lex, Lexer};
use crate::node::{lemma_nodes_view_push, BinOp, CompoundNode, Node, NodeList, SpecNode, UnaryOp};
use crate::token::delim::DelimKind;
use crate::token::keyword::Keyword;
use crate::token::op::OpKind;
use crate::token::{SpecToken, Token};

verus! {

#[derive(Debug, PartialEq, Eq)]
pub enum ParserErr {
    /// Not produced by this parser; kept so that callers can name every kind.
    InvalidToken(String),
    /// A token of the wrong kind where a certain kind is required.
    TokenMismatch(String),
    /// A required keyword or delimiter is absent.
    MissingToken(String),
    /// The tokens do not form an expression or a statement.
    InvalidExpr,
    /// The scanner failed, or a token stands where no rule expects it.
    Undefined,
}

/// The kind of a parse error, without its message.
#[derive(Debug, Clone, Copy, PartialEq, Eq, Structural)]
pub enum ParseFault {
    InvalidToken,
    TokenMismatch,
    MissingToken,
    InvalidExpr,
    Undefined,
}

impl ParserErr {
    pub open spec fn kind(&self) -> ParseFault {
        match self {
            ParserErr::InvalidToken(_) => ParseFault::InvalidToken,
            ParserErr::TokenMismatch(_) => ParseFault::TokenMismatch,
            ParserErr::MissingToken(_) => ParseFault::MissingToken,
            ParserErr::InvalidExpr => ParseFault::InvalidExpr,
            ParserErr::Undefined => ParseFault::Undefined,
        }
    }
}

/// Where the parser stands: the text not yet scanned and the lookahead token.
pub struct PState {
    pub rest: Seq<char>,
    pub cur: SpecToken,
}

/// What a grammar rule yields: the node and the state after it, or an error.
pub type Parsed = Result<(SpecNode, PState), ParseFault>;

/// Decreases with every token consumed.
pub open spec fn measure(st: PState) -> nat {
    st.rest.len() + if st.cur is Eof {
        0nat
    } else {
        1nat
    }
}

/// The state after the lookahead token is consumed.
pub open spec fn advance(st: PState) -> Result<PState, ParseFault> {
    match lex(st.rest) {
        Ok((t, r)) => Ok(PState { rest: r, cur: t }),
        Err(_) => Err(ParseFault::Undefined),
    }
}

pub proof fn lemma_advance(st: PState)
    ensures
        advance(st) matches Ok(st1) ==> {
            &&& measure(st1) <= measure(st)
            &&& !(st.cur is Eof) ==> measure(st1) < measure(st)
        },
{
    lemma_lex_progress(st.rest);
}

pub open spec fn is_sum_op(t: SpecToken) -> bool {
    t == SpecToken::Op(OpKind::Plus) || t == SpecToken::Op(OpKind::Minus)
}

pub open spec fn is_product_op(t: SpecToken) -> bool {
    t == SpecToken::Op(OpKind::Star) || t == SpecToken::Op(OpKind::Slash) || t == SpecToken::Op(
        OpKind::Percent,
    ) || t == SpecToken::Op(OpKind::Caret)
}

/// A node that may stand as the operand of an operator.
pub open spec fn is_operand(n: SpecNode) -> bool {
    !(n is Keyword || n is Delim || n is Compound || n is Empty)
}

pub open spec fn assign(name: Seq<char>, value: SpecNode) -> SpecNode {
    SpecNode::BinOp(Box::new(SpecNode::Ident(name)), OpKind::AssignEq, Box::new(value))
}

/// `factor`: consumes exactly one token, and what it opens.
pub open spec fn p_factor(st: PState) -> Parsed
    decreases measure(st), 1nat,
{
    proof {
        lemma_advance(st);
    }
    match advance(st) {
        Err(e) => Err(e),
        Ok(st1) => match st.cur {
            SpecToken::Literal(l) => Ok((SpecNode::Literal(l), st1)),
            SpecToken::Ident(s) => Ok((SpecNode::Ident(s), st1)),
            SpecToken::OpenDelim(d) => p_group(d, st1),
            SpecToken::Op(op) => p_unary(op, st1),
            SpecToken::Delim(d) => if d == DelimKind::Paren {
                Err(ParseFault::MissingToken)
            } else {
                Ok((SpecNode::Delim(d), st1))
            },
            SpecToken::Eof => Ok((SpecNode::Empty, st1)),
            SpecToken::Keyword(k) => Ok((SpecNode::Keyword(k), st1)),
            SpecToken::CloseDelim(_) => Err(ParseFault::Undefined),
        },
    }
}

/// The inside of a group opened by `open`, and its closing delimiter.
pub open spec fn p_group(open: DelimKind, st: PState) -> Parsed
    decreases measure(st), 6nat,
{
    match p_expr(st) {
        Err(e) => Err(e),
        Ok((n, st1)) => match st1.cur {
            SpecToken::CloseDelim(close) => match advance(st1) {
                Err(e) => Err(e),
                Ok(st2) => if open == close {
                    Ok((n, st2))
                } else {
                    Err(ParseFault::TokenMismatch)
                },
            },
            _ => Err(ParseFault::TokenMismatch),
        },
    }
}

/// The operand of a sign `op` that has been consumed.
pub open spec fn p_unary(op: OpKind, st: PState) -> Parsed
    decreases measure(st), 2nat,
{
    if op == OpKind::Plus || op == OpKind::Minus {
        match p_factor(st) {
            Err(e) => Err(e),
            Ok((n, st1)) => if is_operand(n) {
                Ok((SpecNode::UnaryOp(op, Box::new(n)), st1))
            } else {
                Err(ParseFault::InvalidExpr)
            },
        }
    } else {
        Err(ParseFault::TokenMismatch)
    }
}

/// The operand to the right of a binary operator, checked.
pub open spec fn check_operand(n: SpecNode) -> Result<SpecNode, ParseFault> {
    if n is Keyword {
        Err(ParseFault::TokenMismatch)
    } else if n is Delim || n is Empty {
        Err(ParseFault::InvalidExpr)
    } else {
        Ok(n)
    }
}

/// `term`. A factor that cannot be an operand (a keyword, a separator, or the
/// end of the text) ends the term at once.
pub open spec fn p_term(st: PState) -> Parsed
    decreases measure(st), 3nat,
{
    match p_factor(st) {
        Err(e) => Err(e),
        Ok((n, st1)) => if !is_operand(n) {
            Ok((n, st1))
        } else if measure(st1) <= measure(st) {
            p_term_rest(st1, n)
        } else {
            Err(ParseFault::Undefined)
        },
    }
}

/// The factors that follow `acc` in a term, folded to the left onto it.
pub open spec fn p_term_rest(st: PState, acc: SpecNode) -> Parsed
    decreases measure(st), 2nat,
{
    if is_product_op(st.cur) {
        proof {
            lemma_advance(st);
        }
        match advance(st) {
            Err(e) => Err(e),
            Ok(st1) => match p_factor(st1) {
                Err(e) => Err(e),
                Ok((n, st2)) => match check_operand(n) {
                    Err(e) => Err(e),
                    Ok(n) => if measure(st2) < measure(st) {
                        p_term_rest(st2, SpecNode::BinOp(Box::new(acc), st.cur->Op_0, Box::new(n)))
                    } else {
                        Err(ParseFault::Undefined)
                    },
                },
            },
        }
    } else {
        Ok((acc, st))
    }
}

/// `expr`
pub open spec fn p_expr(st: PState) -> Parsed
    decreases measure(st), 5nat,
{
    match p_term(st) {
        Err(e) => Err(e),
        Ok((n, st1)) => if !is_operand(n) {
            Ok((n, st1))
        } else if measure(st1) <= measure(st) {
            p_expr_rest(st1, n)
        } else {
            Err(ParseFault::Undefined)
        },
    }
}

/// The terms that follow `acc` in an expression, folded to the left onto it.
pub open spec fn p_expr_rest(st: PState, acc: SpecNode) -> Parsed
    decreases measure(st), 4nat,
{
    if is_sum_op(st.cur) {
        proof {
            lemma_advance(st);
        }
        match advance(st) {
            Err(e) => Err(e),
            Ok(st1) => match p_term(st1) {
                Err(e) => Err(e),
                Ok((n, st2)) => match check_operand(n) {
                    Err(e) => Err(e),
                    Ok(n) => if measure(st2) < measure(st) {
                        p_expr_rest(st2, SpecNode::BinOp(Box::new(acc), st.cur->Op_0, Box::new(n)))
                    } else {
                        Err(ParseFault::Undefined)
                    },
                },
            },
        }
    } else {
        Ok((acc, st))
    }
}

/// What follows an identifier `name` that has been consumed at the start of a
/// statement or of the value of an assignment: `:=` and the value, or the rest
/// of an expression that starts with the identifier.
pub open spec fn p_ident_start(name: Seq<char>, st: PState) -> Parsed
    decreases measure(st), 6nat,
{
    if st.cur == SpecToken::Op(OpKind::AssignEq) {
        proof {
            lemma_advance(st);
        }
        match advance(st) {
            Err(e) => Err(e),
            Ok(st1) => match p_assignment(st1) {
                Err(e) => Err(e),
                Ok((v, st2)) => Ok((assign(name, v), st2)),
            },
        }
    } else {
        match p_term_rest(st, SpecNode::Ident(name)) {
            Err(e) => Err(e),
            Ok((t, st1)) => if measure(st1) <= measure(st) {
                p_expr_rest(st1, t)
            } else {
                Err(ParseFault::Undefined)
            },
        }
    }
}

/// The value of an assignment. Assignment groups to the right, so the value
/// may be an assignment itself.
pub open spec fn p_assignment(st: PState) -> Parsed
    decreases measure(st), 7nat,
{
    match st.cur {
        SpecToken::Ident(name) => {
            proof {
                lemma_advance(st);
            }
            match advance(st) {
                Err(e) => Err(e),
                Ok(st1) => p_ident_start(name, st1),
            }
        },
        _ => match p_expr(st) {
            Err(e) => Err(e),
            Ok((n, st1)) => if is_operand(n) {
                Ok((n, st1))
            } else {
                Err(ParseFault::InvalidExpr)
            },
        },
    }
}

/// `statement`, starting on the token after the lookahead (`BEGIN` or `;`).
pub open spec fn p_statement(st: PState) -> Parsed
    decreases measure(st), 8nat,
{
    match advance(st) {
        Err(e) => Err(e),
        Ok(st1) => if measure(st1) < measure(st) {
            p_statement_at(st1)
        } else {
            Err(ParseFault::Undefined)
        },
    }
}

/// `statement`, starting on the lookahead.
pub open spec fn p_statement_at(st: PState) -> Parsed
    decreases measure(st), 12nat,
{
    match st.cur {
        SpecToken::Delim(_) => Ok((SpecNode::Empty, st)),
        SpecToken::Keyword(Keyword::Begin) => match p_block(st) {
            Err(e) => Err(e),
            Ok((n, st1)) => match advance(st1) {
                Err(e) => Err(e),
                Ok(st2) => Ok((n, st2)),
            },
        },
        SpecToken::Keyword(Keyword::End) => Ok((SpecNode::Empty, st)),
        SpecToken::Ident(name) => {
            proof {
                lemma_advance(st);
            }
            match advance(st) {
                Err(e) => Err(e),
                Ok(st1) => p_ident_start(name, st1),
            }
        },
        _ => match p_expr(st) {
            Err(e) => Err(e),
            Ok((n, st1)) => if n is Keyword || n is Delim || n is Compound {
                Err(ParseFault::InvalidExpr)
            } else {
                Ok((n, st1))
            },
        },
    }
}

/// The statements of a block, after those in `acc`, each preceded by the
/// lookahead (`BEGIN` or `;`).
pub open spec fn p_statements(st: PState, acc: Seq<SpecNode>) -> Parsed
    decreases measure(st), 9nat,
{
    match p_statement(st) {
        Err(e) => Err(e),
        Ok((n, st1)) => if st1.cur == SpecToken::Delim(DelimKind::Semicolon) {
            if measure(st1) < measure(st) {
                p_statements(st1, acc.push(n))
            } else {
                Err(ParseFault::Undefined)
            }
        } else {
            Ok((SpecNode::Compound(acc.push(n)), st1))
        },
    }
}

/// `block`: ends on its `END`, which is left as the lookahead.
pub open spec fn p_block(st: PState) -> Parsed
    decreases measure(st), 10nat,
{
    if st.cur != SpecToken::Keyword(Keyword::Begin) {
        Err(ParseFault::MissingToken)
    } else {
        match p_statements(st, Seq::empty()) {
            Err(e) => Err(e),
            Ok((n, st1)) => if st1.cur != SpecToken::Keyword(Keyword::End) {
                Err(ParseFault::MissingToken)
            } else {
                Ok((n, st1))
            },
        }
    }
}

/// `program`
pub open spec fn p_program(st: PState) -> Parsed {
    match p_block(st) {
        Err(e) => Err(e),
        Ok((n, st1)) => match advance(st1) {
            Err(e) => Err(e),
            Ok(st2) => if st2.cur != SpecToken::Delim(DelimKind::Dot) {
                Err(ParseFault::MissingToken)
            } else {
                match advance(st2) {
                    Err(e) => Err(e),
                    Ok(st3) => Ok((n, st3)),
                }
            },
        },
    }
}

/// The tree of a whole text: a program, and nothing after it.
pub open spec fn spec_parse(text: Seq<char>) -> Result<SpecNode, ParseFault> {
    match advance(PState { rest: text, cur: SpecToken::Eof }) {
        Err(e) => Err(e),
        Ok(st) => match p_program(st) {
            Err(e) => Err(e),
            Ok((n, st1)) => if st1.cur is Eof {
                Ok(n)
            } else {
                Err(ParseFault::InvalidExpr)
            },
        },
    }
}

/// The exec result `r`, with the parser left in `after`, is what the rule gave.
pub open spec fn agrees(r: Result<Node, ParserErr>, after: PState, s: Parsed) -> bool {
    match (r, s) {
        (Ok(n), Ok((m, st))) => n@ == m && after == st,
        (Err(e), Err(f)) => e.kind() == f,
        _ => false,
    }
}

fn message(text: &str) -> (r: String) {
    text.to_owned()
}

#[derive(Debug)]
pub struct Parser {
    current_token: Token,
    lexer: Lexer,
}

impl View for Parser {
    type V = PState;

    closed spec fn view(&self) -> PState {
        PState { rest: self.lexer@, cur: self.current_token@ }
    }
}

impl Parser {
    pub fn new() -> (r: Parser)
        ensures
            r@.cur is Eof,
    {
        Parser { current_token: Token::Eof, lexer: Lexer::new("") }
    }

    /// The syntax tree of the program `text`.
    pub fn parse(&mut self, text: &str) -> (r: Result<Node, ParserErr>)
        ensures
            match (r, spec_parse(text@)) {
                (Ok(n), Ok(m)) => n@ == m,
                (Err(e), Err(f)) => e.kind() == f,
                _ => false,
            },
    {
        self.lexer.set(text);
        self.current_token = Token::Eof;
        self.next_token()?;
        let ast = self.program()?;
        match self.current_token {
            Token::Eof => Ok(ast),
            _ => Err(ParserErr::InvalidExpr),
        }
    }

    #[verifier::rlimit(30)]
    fn program(&mut self) -> (r: Result<Node, ParserErr>)
        ensures
            agrees(r, final(self)@, p_program(old(self)@)),
    {
        let node_list = self.complex_statement()?;
        self.next_token()?;
        match self.current_token {
            Token::Delim(DelimKind::Dot) => {},
            _ => {
                return Err(ParserErr::MissingToken(message("a program must end with a dot")));
            },
        }
        self.next_token()?;
        Ok(node_list)
    }

    /// A block, from its `BEGIN` up to its `END`, which stays the lookahead.
    fn complex_statement(&mut self) -> (r: Result<Node, ParserErr>)
        ensures
            agrees(r, final(self)@, p_block(old(self)@)),
            r is Ok ==> measure(final(self)@) <= measure(old(self)@),
        decreases measure(self@), 10nat,
    {
        match self.current_token {
            Token::Keyword(Keyword::Begin) => {},
            _ => {
                return Err(ParserErr::MissingToken(message("expected keyword `BEGIN`")));
            },
        }
        let node_list = self.statement_list()?;
        match self.current_token {
            Token::Keyword(Keyword::End) => Ok(node_list),
            _ => Err(ParserErr::MissingToken(message("expected keyword `END`"))),
        }
    }

    fn statement_list(&mut self) -> (r: Result<Node, ParserErr>)
        requires
            old(self)@.cur == SpecToken::Keyword(Keyword::Begin),
        ensures
            agrees(r, final(self)@, p_statements(old(self)@, Seq::empty())),
            r is Ok ==> measure(final(self)@) <= measure(old(self)@),
        decreases measure(self@), 9nat,
    {
        let mut nodes: NodeList = Vec::new();
        assert(crate::node::nodes_view(nodes@) =~= Seq::empty());
        loop
            invariant
                p_statements(old(self)@, Seq::empty()) == p_statements(
                    self@,
                    crate::node::nodes_view(nodes@),
                ),
                measure(self@) <= measure(old(self)@),
                !(self@.cur is Eof),
            decreases measure(self@),
        {
            let node = self.statement()?;
            proof {
                lemma_nodes_view_push(nodes@, node);
            }
            nodes.push(node);
            match self.current_token {
                Token::Delim(DelimKind::Semicolon) => {},
                _ => {
                    return Ok(CompoundNode::from_list(nodes));
                },
            }
        }
    }

    fn statement(&mut self) -> (r: Result<Node, ParserErr>)
        requires
            !(old(self)@.cur is Eof),
        ensures
            agrees(r, final(self)@, p_statement(old(self)@)),
            r is Ok ==> measure(final(self)@) < measure(old(self)@),
        decreases measure(self@), 8nat,
    {
        proof {
            lemma_advance(self@);
        }
        self.next_token()?;
        self.statement_at()
    }

    /// A statement that starts on the lookahead.
    #[verifier::rlimit(30)]
    fn statement_at(&mut self) -> (r: Result<Node, ParserErr>)
        ensures
            agrees(r, final(self)@, p_statement_at(old(self)@)),
            r is Ok ==> measure(final(self)@) <= measure(old(self)@),
        decreases measure(self@), 12nat,
    {
        match self.current_token.duplicate() {
            Token::Delim(_) => Ok(Node::Empty),
            Token::Keyword(Keyword::Begin) => {
                let statement = self.complex_statement()?;
                proof {
                    lemma_advance(self@);
                }
                self.next_token()?;
                Ok(statement)
            },
            Token::Keyword(Keyword::End) => Ok(Node::Empty),
            Token::Ident(ident) => {
                proof {
                    lemma_advance(self@);
                }
                self.next_token()?;
                self.ident_statement(ident)
            },
            _ => {
                let node = self.expr()?;
                match node {
                    Node::Keyword(_) | Node::Delim(_) | Node::Compound(_) => Err(
                        ParserErr::InvalidExpr,
                    ),
                    _ => Ok(node),
                }
            },
        }
    }

    /// What follows an identifier `ident` that starts a statement or the value
    /// of an assignment.
    fn ident_statement(&mut self, ident: String) -> (r: Result<Node, ParserErr>)
        ensures
            agrees(r, final(self)@, p_ident_start(ident@, old(self)@)),
            r is Ok ==> measure(final(self)@) <= measure(old(self)@),
        decreases measure(self@), 6nat,
    {
        match self.current_token {
            Token::Op(OpKind::AssignEq) => {
                proof {
                    lemma_advance(self@);
                }
                self.next_token()?;
                let value = self.assignment()?;
                Ok(BinOp::new(Node::Ident(ident), OpKind::AssignEq, value))
            },
            _ => {
                let term = self.term_rest(Node::Ident(ident))?;
                self.expr_rest(term)
            },
        }
    }

    /// The value of an assignment.
    fn assignment(&mut self) -> (r: Result<Node, ParserErr>)
        ensures
            agrees(r, final(self)@, p_assignment(old(self)@)),
            r is Ok ==> measure(final(self)@) <= measure(old(self)@),
        decreases measure(self@), 7nat,
    {
        match self.current_token.duplicate() {
            Token::Ident(ident) => {
                proof {
                    lemma_advance(self@);
                }
                self.next_token()?;
                self.ident_statement(ident)
            },
            _ => {
                let node = self.expr()?;
                match node {
                    Node::Keyword(_) | Node::Delim(_) | Node::Compound(_) | Node::Empty => Err(
                        ParserErr::InvalidExpr,
                    ),
                    _ => Ok(node),
                }
            },
        }
    }

    fn next_token(&mut self) -> (r: Result<(), ParserErr>)
        ensures
            match advance(old(self)@) {
                Ok(st) => r is Ok && final(self)@ == st,
                Err(f) => r matches Err(e) && e.kind() == f,
            },
    {
        match self.lexer.next() {
            Ok(token) => {
                self.current_token = token;
                Ok(())
            },
            Err(_) => Err(ParserErr::Undefined),
        }
    }

    fn expr(&mut self) -> (r: Result<Node, ParserErr>)
        ensures
            agrees(r, final(self)@, p_expr(old(self)@)),
            r is Ok ==> measure(final(self)@) <= measure(old(self)@),
        decreases measure(self@), 5nat,
    {
        let res = self.term()?;
        match res {
            Node::Keyword(_) | Node::Delim(_) | Node::Compound(_) | Node::Empty => {
                return Ok(res);
            },
            _ => {},
        }
        self.expr_rest(res)
    }

    /// The terms that follow `acc`, joined to it by `+` or `-` from the left.
    fn expr_rest(&mut self, acc: Node) -> (r: Result<Node, ParserErr>)
        ensures
            agrees(r, final(self)@, p_expr_rest(old(self)@, acc@)),
            r is Ok ==> measure(final(self)@) <= measure(old(self)@),
        decreases measure(self@), 4nat,
    {
        if !self.is_expr_token() {
            return Ok(acc);
        }
        let op = match self.current_token {
            Token::Op(op) => op,
            _ => {
                return Ok(acc);
            },
        };
        proof {
            lemma_advance(self@);
        }
        self.next_token()?;
        let node = self.term()?;
        match node {
            Node::Keyword(_) => Err(
                ParserErr::TokenMismatch(message("a binary operator takes no keyword")),
            ),
            Node::Delim(_) | Node::Empty => Err(ParserErr::InvalidExpr),
            _ => self.expr_rest(BinOp::new(acc, op, node)),
        }
    }

    fn term(&mut self) -> (r: Result<Node, ParserErr>)
        ensures
            agrees(r, final(self)@, p_term(old(self)@)),
            r is Ok ==> measure(final(self)@) <= measure(old(self)@),
        decreases measure(self@), 3nat,
    {
        let res = self.factor()?;
        match res {
            Node::Keyword(_) | Node::Delim(_) | Node::Compound(_) | Node::Empty => {
                return Ok(res);
            },
            _ => {},
        }
        self.term_rest(res)
    }

    /// The factors that follow `acc`, joined to it by `*`, `/`, `%` or `^` from
    /// the left.
    fn term_rest(&mut self, acc: Node) -> (r: Result<Node, ParserErr>)
        ensures
            agrees(r, final(self)@, p_term_rest(old(self)@, acc@)),
            r is Ok ==> measure(final(self)@) <= measure(old(self)@),
        decreases measure(self@), 2nat,
    {
        if !self.is_term_token() {
            return Ok(acc);
        }
        let op = match self.current_token {
            Token::Op(op) => op,
            _ => {
                return Ok(acc);
            },
        };
        proof {
            lemma_advance(self@);
        }
        self.next_token()?;
        let node = self.factor()?;
        match node {
            Node::Keyword(_) => Err(
                ParserErr::TokenMismatch(message("a binary operator takes no keyword")),
            ),
            Node::Delim(_) | Node::Empty => Err(ParserErr::InvalidExpr),
            _ => self.term_rest(BinOp::new(acc, op, node)),
        }
    }

    fn factor(&mut self) -> (r: Result<Node, ParserErr>)
        ensures
            agrees(r, final(self)@, p_factor(old(self)@)),
            r is Ok ==> measure(final(self)@) <= measure(old(self)@),
        decreases measure(self@), 1nat,
    {
        let token = self.current_token.duplicate();
        proof {
            lemma_advance(self@);
        }
        self.next_token()?;
        match token {
            Token::Literal(lit) => Ok(Node::Literal(lit)),
            Token::Ident(ident) => Ok(Node::Ident(ident)),
            Token::OpenDelim(open_delim) => self.bin_delim_factor(open_delim),
            Token::Op(op) => self.unary_op_factor(op),
            Token::Delim(delim) => match delim {
                DelimKind::Paren => Err(ParserErr::MissingToken(message("missing delimiter"))),
                _ => Ok(Node::Delim(delim)),
            },
            Token::Eof => Ok(Node::Empty),
            Token::Keyword(keyword) => Ok(Node::Keyword(keyword)),
            Token::CloseDelim(_) => Err(ParserErr::Undefined),
        }
    }

    fn bin_delim_factor(&mut self, open_delim: DelimKind) -> (r: Result<Node, ParserErr>)
        ensures
            agrees(r, final(self)@, p_group(open_delim, old(self)@)),
            r is Ok ==> measure(final(self)@) <= measure(old(self)@),
        decreases measure(self@), 6nat,
    {
        let res = self.expr()?;
        match self.current_token {
            Token::CloseDelim(close_delim) => {
                proof {
                    lemma_advance(self@);
                }
                self.next_token()?;
                if open_delim == close_delim {
                    Ok(res)
                } else {
                    Err(ParserErr::TokenMismatch(message("mismatched closing delimiter")))
                }
            },
            _ => Err(ParserErr::TokenMismatch(message("expected a closing delimiter"))),
        }
    }

    fn unary_op_factor(&mut self, op: OpKind) -> (r: Result<Node, ParserErr>)
        ensures
            agrees(r, final(self)@, p_unary(op, old(self)@)),
            r is Ok ==> measure(final(self)@) <= measure(old(self)@),
        decreases measure(self@), 2nat,
    {
        match op {
            OpKind::Plus | OpKind::Minus => {
                let node = self.factor()?;
                match node {
                    Node::Keyword(_) | Node::Delim(_) | Node::Compound(_) | Node::Empty => Err(
                        ParserErr::InvalidExpr,
                    ),
                    _ => Ok(UnaryOp::new(op, node)),
                }
            },
            _ => Err(
                ParserErr::TokenMismatch(message("a unary operator is either `+` or `-`")),
            ),
        }
    }

    fn is_expr_token(&self) -> (r: bool)
        ensures
            r == is_sum_op(self@.cur),
    {
        match self.current_token {
            Token::Op(OpKind::Plus) | Token::Op(OpKind::Minus) => true,
            _ => false,
        }
    }

    fn is_term_token(&self) -> (r: bool)
        ensures
            r == is_product_op(self@.cur),
    {
        match self.current_token {
            Token::Op(OpKind::Slash) | Token::Op(OpKind::Star) | Token::Op(OpKind::Percent)
            | Token::Op(OpKind::Caret) => true,
            _ => false,
        }
    }
}

impl Default for Parser {
    fn default() -> (r: Parser)
        ensures
            r@.cur is Eof,
    {
        Parser::new()
    }
}

} // verus!
