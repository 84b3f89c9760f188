//! The shape of the trees that the parser yields.

use vstd::prelude::*;

use crate::node::SpecNode;
use crate::parser::{
    advance, check_operand, is_operand, is_product_op, is_sum_op, lemma_advance, measure,
    p_assignment, p_block, p_expr, p_expr_rest, p_factor, p_group, p_ident_start, p_statement,
    p_statement_at, p_statements, p_term, p_term_rest, p_unary, spec_parse, PState,
};
use crate::token::delim::DelimKind;
use crate::token::keyword::Keyword;
use crate::token::op::OpKind;
use crate::token::SpecToken;

verus! {

broadcast use {vstd::seq::axiom_seq_index_decreases, vstd::seq::axiom_seq_subrange_decreases};

/// An expression: literals and identifiers under signs and binary operators,
/// where `:=` has an identifier on its left.
pub open spec fn is_expr(n: SpecNode) -> bool
    decreases n,
{
    match n {
        SpecNode::Literal(_) => true,
        SpecNode::Ident(_) => true,
        SpecNode::UnaryOp(op, a) => (op == OpKind::Plus || op == OpKind::Minus) && is_expr(*a),
        SpecNode::BinOp(l, op, r) => is_expr(*r) && if op == OpKind::AssignEq {
            *l is Ident
        } else {
            is_expr(*l)
        },
        _ => false,
    }
}

/// A statement: a block of statements, an empty statement, or an expression.
pub open spec fn is_statement(n: SpecNode) -> bool
    decreases n,
{
    match n {
        SpecNode::Compound(cs) => all_statements(cs),
        SpecNode::Empty => true,
        _ => is_expr(n),
    }
}

/// Each node of the list is a statement.
pub open spec fn all_statements(ns: Seq<SpecNode>) -> bool
    decreases ns,
{
    ns.len() == 0 || (all_statements(ns.drop_last()) && is_statement(ns.last()))
}

/// A rule of the expression ladder yields an expression, or a node that is no
/// operand at all (which the caller rejects or passes on).
pub open spec fn expr_or_stop(r: Result<(SpecNode, PState), crate::parser::ParseFault>) -> bool {
    r matches Ok((n, _)) ==> n is Keyword || n is Delim || n is Empty || is_expr(n)
}

pub open spec fn yields_expr(r: Result<(SpecNode, PState), crate::parser::ParseFault>) -> bool {
    r matches Ok((n, _)) ==> is_expr(n)
}

proof fn lemma_factor(st: PState)
    ensures
        expr_or_stop(p_factor(st)),
    decreases measure(st), 1nat,
{
    lemma_advance(st);
    if let Ok(st1) = advance(st) {
        match st.cur {
            SpecToken::OpenDelim(d) => lemma_group(d, st1),
            SpecToken::Op(op) => lemma_unary(op, st1),
            _ => {},
        }
    }
}

proof fn lemma_group(open: DelimKind, st: PState)
    ensures
        expr_or_stop(p_group(open, st)),
    decreases measure(st), 6nat,
{
    lemma_expr(st);
}

proof fn lemma_unary(op: OpKind, st: PState)
    ensures
        yields_expr(p_unary(op, st)),
    decreases measure(st), 2nat,
{
    if op == OpKind::Plus || op == OpKind::Minus {
        lemma_factor(st);
    }
}

proof fn lemma_term_rest(st: PState, acc: SpecNode)
    requires
        is_expr(acc),
    ensures
        yields_expr(p_term_rest(st, acc)),
    decreases measure(st), 2nat,
{
    if is_product_op(st.cur) {
        lemma_advance(st);
        if let Ok(st1) = advance(st) {
            lemma_factor(st1);
            if let Ok((n, st2)) = p_factor(st1) {
                if check_operand(n) is Ok && measure(st2) < measure(st) {
                    lemma_term_rest(
                        st2,
                        SpecNode::BinOp(Box::new(acc), st.cur->Op_0, Box::new(n)),
                    );
                }
            }
        }
    }
}

proof fn lemma_term(st: PState)
    ensures
        expr_or_stop(p_term(st)),
    decreases measure(st), 3nat,
{
    lemma_factor(st);
    if let Ok((n, st1)) = p_factor(st) {
        if is_operand(n) && measure(st1) <= measure(st) {
            lemma_term_rest(st1, n);
        }
    }
}

proof fn lemma_expr_rest(st: PState, acc: SpecNode)
    requires
        is_expr(acc),
    ensures
        yields_expr(p_expr_rest(st, acc)),
    decreases measure(st), 4nat,
{
    if is_sum_op(st.cur) {
        lemma_advance(st);
        if let Ok(st1) = advance(st) {
            lemma_term(st1);
            if let Ok((n, st2)) = p_term(st1) {
                if check_operand(n) is Ok && measure(st2) < measure(st) {
                    lemma_expr_rest(
                        st2,
                        SpecNode::BinOp(Box::new(acc), st.cur->Op_0, Box::new(n)),
                    );
                }
            }
        }
    }
}

proof fn lemma_expr(st: PState)
    ensures
        expr_or_stop(p_expr(st)),
    decreases measure(st), 5nat,
{
    lemma_term(st);
    if let Ok((n, st1)) = p_term(st) {
        if is_operand(n) && measure(st1) <= measure(st) {
            lemma_expr_rest(st1, n);
        }
    }
}

proof fn lemma_ident_start(name: Seq<char>, st: PState)
    ensures
        yields_expr(p_ident_start(name, st)),
    decreases measure(st), 6nat,
{
    if st.cur == SpecToken::Op(OpKind::AssignEq) {
        lemma_advance(st);
        if let Ok(st1) = advance(st) {
            lemma_assignment(st1);
        }
    } else {
        lemma_term_rest(st, SpecNode::Ident(name));
        if let Ok((t, st1)) = p_term_rest(st, SpecNode::Ident(name)) {
            if measure(st1) <= measure(st) {
                lemma_expr_rest(st1, t);
            }
        }
    }
}

proof fn lemma_assignment(st: PState)
    ensures
        yields_expr(p_assignment(st)),
    decreases measure(st), 7nat,
{
    match st.cur {
        SpecToken::Ident(name) => {
            lemma_advance(st);
            if let Ok(st1) = advance(st) {
                lemma_ident_start(name, st1);
            }
        },
        _ => lemma_expr(st),
    }
}

proof fn lemma_statement(st: PState)
    ensures
        p_statement(st) matches Ok((n, _)) ==> is_statement(n),
    decreases measure(st), 8nat,
{
    if let Ok(st1) = advance(st) {
        if measure(st1) < measure(st) {
            lemma_statement_at(st1);
        }
    }
}

proof fn lemma_statement_at(st: PState)
    ensures
        p_statement_at(st) matches Ok((n, _)) ==> is_statement(n),
    decreases measure(st), 12nat,
{
    match st.cur {
        SpecToken::Delim(_) => {},
        SpecToken::Keyword(Keyword::Begin) => lemma_block(st),
        SpecToken::Keyword(Keyword::End) => {},
        SpecToken::Ident(name) => {
            lemma_advance(st);
            if let Ok(st1) = advance(st) {
                lemma_ident_start(name, st1);
            }
        },
        _ => lemma_expr(st),
    }
}

proof fn lemma_statements(st: PState, acc: Seq<SpecNode>)
    requires
        all_statements(acc),
    ensures
        p_statements(st, acc) matches Ok((n, _)) ==> n is Compound && is_statement(n),
    decreases measure(st), 9nat,
{
    lemma_statement(st);
    if let Ok((n, st1)) = p_statement(st) {
        let next = acc.push(n);
        assert(next.drop_last() =~= acc);
        if st1.cur == SpecToken::Delim(DelimKind::Semicolon) {
            if measure(st1) < measure(st) {
                lemma_statements(st1, next);
            }
        }
    }
}

proof fn lemma_block(st: PState)
    ensures
        p_block(st) matches Ok((n, _)) ==> n is Compound && is_statement(n),
    decreases measure(st), 10nat,
{
    assert(all_statements(Seq::<SpecNode>::empty()));
    lemma_statements(st, Seq::empty());
}

/// `n` is `acc`, or an operator of `level` whose left operand reaches `acc`
/// the same way: `acc` is where a left-grouped chain of such operators starts.
pub open spec fn folds_left(n: SpecNode, acc: SpecNode, level: spec_fn(OpKind) -> bool) -> bool
    decreases n,
{
    n == acc || match n {
        SpecNode::BinOp(l, op, _) => level(op) && folds_left(*l, acc, level),
        _ => false,
    }
}

proof fn lemma_folds_left_trans(
    n: SpecNode,
    m: SpecNode,
    acc: SpecNode,
    level: spec_fn(OpKind) -> bool,
)
    requires
        folds_left(n, m, level),
        folds_left(m, acc, level),
    ensures
        folds_left(n, acc, level),
    decreases n,
{
    if n != m {
        if let SpecNode::BinOp(l, _, _) = n {
            lemma_folds_left_trans(*l, m, acc, level);
        }
    }
}

pub open spec fn sum_level() -> spec_fn(OpKind) -> bool {
    |op: OpKind| op == OpKind::Plus || op == OpKind::Minus
}

pub open spec fn product_level() -> spec_fn(OpKind) -> bool {
    |op: OpKind| op == OpKind::Star || op == OpKind::Slash || op == OpKind::Percent || op
        == OpKind::Caret
}

/// `+` and `-` group to the left: the terms that follow `acc` are folded onto
/// it, so `a - b - c` is `(a - b) - c`.
pub proof fn lemma_sums_group_left(st: PState, acc: SpecNode)
    ensures
        p_expr_rest(st, acc) matches Ok((n, _)) ==> folds_left(n, acc, sum_level()),
    decreases measure(st),
{
    if is_sum_op(st.cur) {
        lemma_advance(st);
        if let Ok(st1) = advance(st) {
            if let Ok((n, st2)) = p_term(st1) {
                if check_operand(n) is Ok && measure(st2) < measure(st) {
                    let next = SpecNode::BinOp(Box::new(acc), st.cur->Op_0, Box::new(n));
                    lemma_sums_group_left(st2, next);
                    assert(folds_left(acc, acc, sum_level()));
                    assert((sum_level())(st.cur->Op_0));
                    assert(folds_left(next, acc, sum_level()));
                    if let Ok((r, _)) = p_expr_rest(st, acc) {
                        lemma_folds_left_trans(r, next, acc, sum_level());
                    }
                }
            }
        }
    }
}

/// `*`, `/`, `%` and `^` group to the left: the factors that follow `acc` are
/// folded onto it, so `a / b * c` is `(a / b) * c`.
pub proof fn lemma_products_group_left(st: PState, acc: SpecNode)
    ensures
        p_term_rest(st, acc) matches Ok((n, _)) ==> folds_left(n, acc, product_level()),
    decreases measure(st),
{
    if is_product_op(st.cur) {
        lemma_advance(st);
        if let Ok(st1) = advance(st) {
            if let Ok((n, st2)) = p_factor(st1) {
                if check_operand(n) is Ok && measure(st2) < measure(st) {
                    let next = SpecNode::BinOp(Box::new(acc), st.cur->Op_0, Box::new(n));
                    lemma_products_group_left(st2, next);
                    assert(folds_left(acc, acc, product_level()));
                    assert((product_level())(st.cur->Op_0));
                    assert(folds_left(next, acc, product_level()));
                    if let Ok((r, _)) = p_term_rest(st, acc) {
                        lemma_folds_left_trans(r, next, acc, product_level());
                    }
                }
            }
        }
    }
}

/// A parsed program is a block; its statements are blocks, empty statements
/// and expressions; keywords and separators never stand in it; operators apply
/// to expressions only; and the left side of every `:=` is an identifier.
pub proof fn lemma_parse_shape(text: Seq<char>)
    ensures
        spec_parse(text) matches Ok(n) ==> n is Compound && is_statement(n),
{
    if let Ok(st) = advance(PState { rest: text, cur: SpecToken::Eof }) {
        lemma_block(st);
    }
}

} // verus!
