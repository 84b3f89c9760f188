//! The syntax tree.

use vstd::prelude::*;

use crate::token::delim::DelimKind;
use crate::token::keyword::Keyword;
use crate::token::literal::{Literal, SpecLiteral};
use crate::token::op::OpKind;

verus! {

broadcast use {
    vstd::seq::axiom_seq_index_decreases,
    vstd::seq::axiom_seq_subrange_decreases,
    vstd::std_specs::vec::axiom_vec_decreases_to_view,
};

/// A node of the syntax tree. Composite nodes own their children.
#[derive(Debug, PartialEq, Eq)]
pub enum Node {
    UnaryOp(UnaryOp),
    BinOp(BinOp),
    Literal(Literal),
    Ident(String),
    Keyword(Keyword),
    Delim(DelimKind),
    /// A `BEGIN ... END` block, one child per statement.
    Compound(CompoundNode),
    /// An empty statement.
    Empty,
}

pub type NodeList = Vec<Node>;

#[derive(Debug, PartialEq, Eq)]
pub struct CompoundNode {
    pub children: NodeList,
}

#[derive(Debug, PartialEq, Eq)]
pub struct UnaryOp {
    pub op: OpKind,
    pub node: Box<Node>,
}

#[derive(Debug, PartialEq, Eq)]
pub struct BinOp {
    pub lhs: Box<Node>,
    pub op: OpKind,
    pub rhs: Box<Node>,
}

/// The mathematical value of a syntax tree.
pub enum SpecNode {
    UnaryOp(OpKind, Box<SpecNode>),
    BinOp(Box<SpecNode>, OpKind, Box<SpecNode>),
    Literal(SpecLiteral),
    Ident(Seq<char>),
    Keyword(Keyword),
    Delim(DelimKind),
    Compound(Seq<SpecNode>),
    Empty,
}

pub open spec fn node_view(n: Node) -> SpecNode
    decreases n,
{
    match n {
        Node::UnaryOp(u) => SpecNode::UnaryOp(u.op, Box::new(node_view(*u.node))),
        Node::BinOp(b) => SpecNode::BinOp(
            Box::new(node_view(*b.lhs)),
            b.op,
            Box::new(node_view(*b.rhs)),
        ),
        Node::Literal(l) => SpecNode::Literal(l@),
        Node::Ident(s) => SpecNode::Ident(s@),
        Node::Keyword(k) => SpecNode::Keyword(k),
        Node::Delim(d) => SpecNode::Delim(d),
        Node::Compound(c) => SpecNode::Compound(nodes_view(c.children@)),
        Node::Empty => SpecNode::Empty,
    }
}

pub open spec fn nodes_view(ns: Seq<Node>) -> Seq<SpecNode>
    decreases ns,
{
    if ns.len() == 0 {
        Seq::empty()
    } else {
        nodes_view(ns.drop_last()).push(node_view(ns.last()))
    }
}

impl View for Node {
    type V = SpecNode;

    open spec fn view(&self) -> SpecNode {
        node_view(*self)
    }
}

impl BinOp {
    pub fn new(lhs: Node, op: OpKind, rhs: Node) -> (r: Node)
        ensures
            r@ == SpecNode::BinOp(Box::new(lhs@), op, Box::new(rhs@)),
    {
        Node::BinOp(BinOp { lhs: Box::new(lhs), op, rhs: Box::new(rhs) })
    }
}

impl UnaryOp {
    pub fn new(op: OpKind, node: Node) -> (r: Node)
        ensures
            r@ == SpecNode::UnaryOp(op, Box::new(node@)),
    {
        Node::UnaryOp(UnaryOp { op, node: Box::new(node) })
    }
}

impl CompoundNode {
    /// A block without statements.
    pub fn new() -> (r: Node)
        ensures
            r@ == SpecNode::Compound(Seq::empty()),
    {
        let children: NodeList = Vec::new();
        assert(nodes_view(children@) =~= Seq::empty());
        Node::Compound(CompoundNode { children })
    }

    /// A block of the given statements, in order.
    pub fn from_list(children: NodeList) -> (r: Node)
        ensures
            r@ == SpecNode::Compound(nodes_view(children@)),
    {
        Node::Compound(CompoundNode { children })
    }
}

impl Node {
    pub fn is_delim(&self) -> (r: bool)
        ensures
            r == (self@ is Delim),
    {
        match self {
            Node::Delim(_) => true,
            _ => false,
        }
    }

    pub fn is_keyword(&self) -> (r: bool)
        ensures
            r == (self@ is Keyword),
    {
        match self {
            Node::Keyword(_) => true,
            _ => false,
        }
    }
}

/// The view of a list holds the view of each node, in order.
pub proof fn lemma_nodes_view_index(ns: Seq<Node>)
    ensures
        nodes_view(ns).len() == ns.len(),
        forall|i: int| 0 <= i < ns.len() ==> #[trigger] nodes_view(ns)[i] == node_view(ns[i]),
    decreases ns.len(),
{
    if ns.len() > 0 {
        lemma_nodes_view_index(ns.drop_last());
    }
}

/// Appending a node to a list appends its view to the list's view.
pub proof fn lemma_nodes_view_push(ns: Seq<Node>, n: Node)
    ensures
        nodes_view(ns.push(n)) == nodes_view(ns).push(node_view(n)),
{
    assert(ns.push(n).drop_last() =~= ns);
}

} // verus!
