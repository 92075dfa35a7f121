//! The expression-tree data model built by the parser and consumed by an
//! evaluator.

use vstd::prelude::*;

verus! {

/// One node of the expression tree: a numeric literal carrying its source
/// lexeme, a binary operation over two subtrees, a unary operation over
/// one, or the `Missing` sentinel standing where no valid expression could
/// be formed.
///
/// `Missing` is an error marker, not an absent value: it must flow through
/// consumers without faulting, and a tree holding it is never a valid
/// result. Each composite node owns its children outright; a tree is
/// acyclic by construction.
#[derive(Debug, PartialEq)]
pub enum Node {
    NumberLit(String),
    Bin(Box<Node>, Box<Node>, char),
    Unary(Box<Node>, char),
    Missing,
}

/// The mathematical value of an expression tree, with literal lexemes as
/// character sequences.
pub ghost enum NodeView {
    NumberLit(Seq<char>),
    Bin(Box<NodeView>, Box<NodeView>, char),
    Unary(Box<NodeView>, char),
    Missing,
}

/// The view of a tree: the same shape with each lexeme abstracted to its
/// character sequence.
pub open spec fn spec_node_view(n: Node) -> NodeView
    decreases n,
{
    match n {
        Node::NumberLit(s) => NodeView::NumberLit(s@),
        Node::Bin(a, b, op) => NodeView::Bin(
            Box::new(spec_node_view(*a)),
            Box::new(spec_node_view(*b)),
            op,
        ),
        Node::Unary(a, op) => NodeView::Unary(Box::new(spec_node_view(*a)), op),
        Node::Missing => NodeView::Missing,
    }
}

impl View for Node {
    type V = NodeView;

    open spec fn view(&self) -> NodeView {
        spec_node_view(*self)
    }
}

/// True when the tree holds a `Missing` sentinel anywhere: exactly the
/// trees a failed parse yields.
pub open spec fn spec_contains_missing(n: NodeView) -> bool
    decreases n,
{
    match n {
        NodeView::NumberLit(_) => false,
        NodeView::Bin(a, b, _) => spec_contains_missing(*a) || spec_contains_missing(*b),
        NodeView::Unary(a, _) => spec_contains_missing(*a),
        NodeView::Missing => true,
    }
}

} // verus!
