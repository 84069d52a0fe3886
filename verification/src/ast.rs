//! Syntax-tree node for arithmetic expressions.

use vstd::prelude::*;

verus! {

broadcast use vstd::seq::axiom_seq_index_decreases;

/// A node of the expression tree. Each node owns its children exclusively,
/// so the tree is finite and acyclic by construction.
#[derive(Debug, PartialEq, Eq)]
pub enum Node {
    Int(i64),
    /// A fractional numeric literal, kept as its source text: verified code
    /// holds no floating-point value, so evaluation is a later stage's work.
    Float(Vec<u8>),
    Var(Vec<u8>),
    Neg(Box<Node>),
    Add(Box<Node>, Box<Node>),
    Sub(Box<Node>, Box<Node>),
    Mul(Box<Node>, Box<Node>),
    Div(Box<Node>, Box<Node>),
    Call(Vec<u8>, Vec<Node>),
    /// A declaration binding a name to a value; sketched for the larger
    /// language, not produced by the expression grammar.
    VarDecl { name: Vec<u8>, value: Box<Node> },
}

/// Mathematical model of a `Node`: the same tree with text as `Seq<u8>`.
pub enum NodeV {
    Int(i64),
    Float(Seq<u8>),
    Var(Seq<u8>),
    Neg(Box<NodeV>),
    Add(Box<NodeV>, Box<NodeV>),
    Sub(Box<NodeV>, Box<NodeV>),
    Mul(Box<NodeV>, Box<NodeV>),
    Div(Box<NodeV>, Box<NodeV>),
    Call(Seq<u8>, Seq<NodeV>),
    VarDecl { name: Seq<u8>, value: Box<NodeV> },
}

/// The model of a node: the same tree, text viewed as byte sequences.
pub open spec fn node_view(n: Node) -> NodeV
    decreases n, 1int,
{
    match n {
        Node::Int(i) => NodeV::Int(i),
        Node::Float(d) => NodeV::Float(d@),
        Node::Var(w) => NodeV::Var(w@),
        Node::Neg(m) => NodeV::Neg(Box::new(node_view(*m))),
        Node::Add(a, b) => NodeV::Add(Box::new(node_view(*a)), Box::new(node_view(*b))),
        Node::Sub(a, b) => NodeV::Sub(Box::new(node_view(*a)), Box::new(node_view(*b))),
        Node::Mul(a, b) => NodeV::Mul(Box::new(node_view(*a)), Box::new(node_view(*b))),
        Node::Div(a, b) => NodeV::Div(Box::new(node_view(*a)), Box::new(node_view(*b))),
        Node::Call(f, args) => NodeV::Call(f@, nodes_view(args@)),
        Node::VarDecl { name, value } => NodeV::VarDecl {
            name: name@,
            value: Box::new(node_view(*value)),
        },
    }
}

/// The models of a sequence of nodes, elementwise.
pub open spec fn nodes_view(s: Seq<Node>) -> Seq<NodeV>
    decreases s, 0int,
{
    if s.len() == 0 {
        Seq::empty()
    } else {
        nodes_view(s.drop_last()).push(node_view(s.last()))
    }
}

impl View for Node {
    type V = NodeV;

    open spec fn view(&self) -> NodeV {
        node_view(*self)
    }
}

} // verus!
