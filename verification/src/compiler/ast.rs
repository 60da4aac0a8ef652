//! The syntax tree: a closed set of node variants, each owning its children.

use crate::compiler::tokenizer::TokenType;
use crate::enum_utils::Variant;
use vstd::prelude::*;

verus! {

/// A node of the syntax tree.
#[derive(Debug, PartialEq)]
pub enum Node {
    /// The statements of a source text or of a function body, in order.
    Program(Vec<Box<Node>>),
    /// Marks a token that is no primary expression. Never part of a tree
    /// that a parse returns.
    Failure,
    /// Stands for a statement that adds nothing to the program, such as a
    /// lone semicolon. Never part of a tree that a parse returns.
    Ignore,
    /// Left operand, operator, right operand.
    BinaryExpression(Box<Node>, Box<Node>, Box<Node>),
    NumericLiteral(i32),
    Identifier(String),
    /// An operator symbol on its own.
    BinaryOperator(String),
    /// Declaration type, name, initializer.
    VariableDeclaration(Box<Node>, String, Box<Node>),
    /// The kind of the token that opened a declaration: `Let` or `Const`.
    DeclarationType(TokenType),
    /// Callee identifier and arguments.
    FunctionCall(Box<Node>, Box<Node>),
    FunctionParameter(String),
    /// The arguments of a call, in order.
    Arguments(Vec<Box<Node>>),
    /// Name, parameters, body (a `Program`).
    FunctionDeclaration(String, Vec<Box<Node>>, Box<Node>),
    ReturnStatement(Box<Node>),
}

/// What a node is in contracts and proofs: the same tree over mathematical
/// sequences.
pub ghost enum NodeView {
    Program(Seq<NodeView>),
    Failure,
    Ignore,
    BinaryExpression(Box<NodeView>, Box<NodeView>, Box<NodeView>),
    NumericLiteral(i32),
    Identifier(Seq<char>),
    BinaryOperator(Seq<char>),
    VariableDeclaration(Box<NodeView>, Seq<char>, Box<NodeView>),
    DeclarationType(TokenType),
    FunctionCall(Box<NodeView>, Box<NodeView>),
    FunctionParameter(Seq<char>),
    Arguments(Seq<NodeView>),
    FunctionDeclaration(Seq<char>, Seq<NodeView>, Box<NodeView>),
    ReturnStatement(Box<NodeView>),
}

/// The view of a node: the same tree, with mathematical sequences for
/// vectors and strings.
pub open spec fn node_view(node: Node) -> NodeView
    decreases node,
{
    match node {
        Node::Program(body) => NodeView::Program(node_views(body@)),
        Node::Failure => NodeView::Failure,
        Node::Ignore => NodeView::Ignore,
        Node::BinaryExpression(left, operator, right) => NodeView::BinaryExpression(
            Box::new(node_view(*left)),
            Box::new(node_view(*operator)),
            Box::new(node_view(*right)),
        ),
        Node::NumericLiteral(value) => NodeView::NumericLiteral(value),
        Node::Identifier(name) => NodeView::Identifier(name@),
        Node::BinaryOperator(symbol) => NodeView::BinaryOperator(symbol@),
        Node::VariableDeclaration(kind, name, value) => NodeView::VariableDeclaration(
            Box::new(node_view(*kind)),
            name@,
            Box::new(node_view(*value)),
        ),
        Node::DeclarationType(kind) => NodeView::DeclarationType(kind),
        Node::FunctionCall(callee, arguments) => NodeView::FunctionCall(
            Box::new(node_view(*callee)),
            Box::new(node_view(*arguments)),
        ),
        Node::FunctionParameter(name) => NodeView::FunctionParameter(name@),
        Node::Arguments(items) => NodeView::Arguments(node_views(items@)),
        Node::FunctionDeclaration(name, parameters, body) => NodeView::FunctionDeclaration(
            name@,
            node_views(parameters@),
            Box::new(node_view(*body)),
        ),
        Node::ReturnStatement(value) => NodeView::ReturnStatement(Box::new(node_view(*value))),
    }
}

/// The views of a sequence of boxed nodes, in order.
pub open spec fn node_views(nodes: Seq<Box<Node>>) -> Seq<NodeView>
    decreases nodes,
{
    if nodes.len() == 0 {
        Seq::empty()
    } else {
        node_views(nodes.drop_last()).push(node_view(*nodes.last()))
    }
}

impl View for Node {
    type V = NodeView;

    open spec fn view(&self) -> NodeView {
        node_view(*self)
    }
}

/// The views of a sequence of nodes are as many as the nodes, each the
/// view of the node in its place.
pub proof fn lemma_node_views(nodes: Seq<Box<Node>>)
    ensures
        node_views(nodes).len() == nodes.len(),
        forall|i: int| 0 <= i < nodes.len() ==> (#[trigger] node_views(nodes)[i]) == (*nodes[i])@,
    decreases nodes.len(),
{
    if nodes.len() > 0 {
        lemma_node_views(nodes.drop_last());
    }
}

/// Appending a node appends its view.
pub proof fn lemma_node_views_push(nodes: Seq<Box<Node>>, node: Box<Node>)
    ensures
        node_views(nodes.push(node)) == node_views(nodes).push((*node)@),
{
    assert(nodes.push(node).drop_last() =~= nodes);
}

impl Variant for Node {
    open spec fn variant_index(&self) -> nat {
        match self {
            Node::Program(_) => 0,
            Node::Failure => 1,
            Node::Ignore => 2,
            Node::BinaryExpression(_, _, _) => 3,
            Node::NumericLiteral(_) => 4,
            Node::Identifier(_) => 5,
            Node::BinaryOperator(_) => 6,
            Node::VariableDeclaration(_, _, _) => 7,
            Node::DeclarationType(_) => 8,
            Node::FunctionCall(_, _) => 9,
            Node::FunctionParameter(_) => 10,
            Node::Arguments(_) => 11,
            Node::FunctionDeclaration(_, _, _) => 12,
            Node::ReturnStatement(_) => 13,
        }
    }

    fn variant(&self) -> (index: u8) {
        match self {
            Node::Program(_) => 0,
            Node::Failure => 1,
            Node::Ignore => 2,
            Node::BinaryExpression(_, _, _) => 3,
            Node::NumericLiteral(_) => 4,
            Node::Identifier(_) => 5,
            Node::BinaryOperator(_) => 6,
            Node::VariableDeclaration(_, _, _) => 7,
            Node::DeclarationType(_) => 8,
            Node::FunctionCall(_, _) => 9,
            Node::FunctionParameter(_) => 10,
            Node::Arguments(_) => 11,
            Node::FunctionDeclaration(_, _, _) => 12,
            Node::ReturnStatement(_) => 13,
        }
    }
}

/// Clones every node of `nodes`.
fn clone_nodes(nodes: &Vec<Box<Node>>) -> (copies: Vec<Box<Node>>)
    ensures
        node_views(copies@) == node_views(nodes@),
    decreases nodes,
{
    let mut copies: Vec<Box<Node>> = Vec::new();
    let mut i: usize = 0;
    while i < nodes.len()
        invariant
            i <= nodes.len(),
            copies@.len() == i,
            forall|j: int| 0 <= j < i ==> (*copies@[j])@ == (*nodes@[j])@,
        decreases nodes.len() - i,
    {
        copies.push(Box::new((&*nodes[i]).clone()));
        i += 1;
    }
    proof {
        lemma_node_views(copies@);
        lemma_node_views(nodes@);
        assert(node_views(copies@) =~= node_views(nodes@));
    }
    copies
}

impl Clone for Node {
    /// A deep copy: the same tree, in storage of its own.
    fn clone(&self) -> (copy: Self)
        ensures
            copy@ == self@,
        decreases self,
    {
        match self {
            Node::Program(body) => Node::Program(clone_nodes(body)),
            Node::Failure => Node::Failure,
            Node::Ignore => Node::Ignore,
            Node::BinaryExpression(left, operator, right) => Node::BinaryExpression(
                Box::new((&**left).clone()),
                Box::new((&**operator).clone()),
                Box::new((&**right).clone()),
            ),
            Node::NumericLiteral(value) => Node::NumericLiteral(*value),
            Node::Identifier(name) => Node::Identifier(name.clone()),
            Node::BinaryOperator(symbol) => Node::BinaryOperator(symbol.clone()),
            Node::VariableDeclaration(kind, name, value) => Node::VariableDeclaration(
                Box::new((&**kind).clone()),
                name.clone(),
                Box::new((&**value).clone()),
            ),
            Node::DeclarationType(kind) => Node::DeclarationType(*kind),
            Node::FunctionCall(callee, arguments) => Node::FunctionCall(
                Box::new((&**callee).clone()),
                Box::new((&**arguments).clone()),
            ),
            Node::FunctionParameter(name) => Node::FunctionParameter(name.clone()),
            Node::Arguments(items) => Node::Arguments(clone_nodes(items)),
            Node::FunctionDeclaration(name, parameters, body) => Node::FunctionDeclaration(
                name.clone(),
                clone_nodes(parameters),
                Box::new((&**body).clone()),
            ),
            Node::ReturnStatement(value) => Node::ReturnStatement(Box::new((&**value).clone())),
        }
    }
}

impl Node {
    /// A boxed deep copy of the node.
    pub fn to_box(&self) -> (boxed: Box<Node>)
        ensures
            (*boxed)@ == self@,
    {
        Box::new(self.clone())
    }
}

/// `node` holds neither sentinel, `Failure` or `Ignore`, at any depth.
pub open spec fn is_sentinel_free(node: NodeView) -> bool
    decreases node,
{
    match node {
        NodeView::Program(body) => all_sentinel_free(body),
        NodeView::Failure => false,
        NodeView::Ignore => false,
        NodeView::BinaryExpression(left, operator, right) => is_sentinel_free(*left)
            && is_sentinel_free(*operator) && is_sentinel_free(*right),
        NodeView::NumericLiteral(_) => true,
        NodeView::Identifier(_) => true,
        NodeView::BinaryOperator(_) => true,
        NodeView::VariableDeclaration(kind, _, value) => is_sentinel_free(*kind)
            && is_sentinel_free(*value),
        NodeView::DeclarationType(_) => true,
        NodeView::FunctionCall(callee, arguments) => is_sentinel_free(*callee) && is_sentinel_free(
            *arguments,
        ),
        NodeView::FunctionParameter(_) => true,
        NodeView::Arguments(items) => all_sentinel_free(items),
        NodeView::FunctionDeclaration(_, parameters, body) => all_sentinel_free(parameters)
            && is_sentinel_free(*body),
        NodeView::ReturnStatement(value) => is_sentinel_free(*value),
    }
}


/// All nodes of the sequence are free of sentinels.
pub open spec fn all_sentinel_free(nodes: Seq<NodeView>) -> bool
    decreases nodes,
{
    forall|i: int| 0 <= i < nodes.len() ==> is_sentinel_free(#[trigger] nodes[i])
}

} // verus!
