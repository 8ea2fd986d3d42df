use vstd::prelude::*;

verus! {

/// Specification-level form of a syntax tree: a `Node` as the contracts see
/// it, with each numeric leaf abstracted to its literal text.
pub enum Ast {
    Number(Seq<char>),
    Addition(Box<Ast>, Box<Ast>),
    Subtraction(Box<Ast>, Box<Ast>),
    Multiplication(Box<Ast>, Box<Ast>),
    Division(Box<Ast>, Box<Ast>),
    Power(Box<Ast>, Box<Ast>),
    Modulo(Box<Ast>, Box<Ast>),
    Positive(Box<Ast>),
    Negative(Box<Ast>),
}

/// One expression as an owned tree.
///
/// A `Number` leaf carries the literal text of the number; every binary
/// variant owns its two children (left, right), the unary signs own one.
/// The tree is built once by the parser and only read afterwards.
#[derive(Debug, PartialEq)]
pub enum Node {
    Number(String),
    Addition(Box<Node>, Box<Node>),
    Subtraction(Box<Node>, Box<Node>),
    Multiplication(Box<Node>, Box<Node>),
    Division(Box<Node>, Box<Node>),
    Power(Box<Node>, Box<Node>),
    Modulo(Box<Node>, Box<Node>),
    Positive(Box<Node>),
    Negative(Box<Node>),
}

/// The tree a `Node` stands for, leaf literals taken as character sequences.
pub open spec fn node_ast(n: Node) -> Ast
    decreases n,
{
    match n {
        Node::Number(s) => Ast::Number(s@),
        Node::Addition(l, r) => Ast::Addition(Box::new(node_ast(*l)), Box::new(node_ast(*r))),
        Node::Subtraction(l, r) => Ast::Subtraction(Box::new(node_ast(*l)), Box::new(node_ast(*r))),
        Node::Multiplication(l, r) => Ast::Multiplication(
            Box::new(node_ast(*l)),
            Box::new(node_ast(*r)),
        ),
        Node::Division(l, r) => Ast::Division(Box::new(node_ast(*l)), Box::new(node_ast(*r))),
        Node::Power(l, r) => Ast::Power(Box::new(node_ast(*l)), Box::new(node_ast(*r))),
        Node::Modulo(l, r) => Ast::Modulo(Box::new(node_ast(*l)), Box::new(node_ast(*r))),
        Node::Positive(c) => Ast::Positive(Box::new(node_ast(*c))),
        Node::Negative(c) => Ast::Negative(Box::new(node_ast(*c))),
    }
}

impl View for Node {
    type V = Ast;

    open spec fn view(&self) -> Ast {
        node_ast(*self)
    }
}

/// Whether every number leaf of the tree holds a decimal numeric literal,
/// so that reading each leaf back as a number cannot fail.
pub open spec fn ast_literals_ok(a: Ast) -> bool
    decreases a,
{
    match a {
        Ast::Number(lit) => crate::tokenizer::is_decimal_literal(lit),
        Ast::Addition(l, r) => ast_literals_ok(*l) && ast_literals_ok(*r),
        Ast::Subtraction(l, r) => ast_literals_ok(*l) && ast_literals_ok(*r),
        Ast::Multiplication(l, r) => ast_literals_ok(*l) && ast_literals_ok(*r),
        Ast::Division(l, r) => ast_literals_ok(*l) && ast_literals_ok(*r),
        Ast::Power(l, r) => ast_literals_ok(*l) && ast_literals_ok(*r),
        Ast::Modulo(l, r) => ast_literals_ok(*l) && ast_literals_ok(*r),
        Ast::Positive(c) => ast_literals_ok(*c),
        Ast::Negative(c) => ast_literals_ok(*c),
    }
}

} // verus!
