use crate::lexer_types::{BinaryOperator, BitwiseShift, ComparisonExpr, LogicalExpr};
use vstd::prelude::*;

verus! {

/// A node of the syntax tree. A parent owns its children.
///
/// A `Float` keeps the literal as it was written, as the token does.
#[derive(Debug, PartialEq)]
#[allow(inconsistent_fields)]
pub enum Ast {
    Program(Vec<Box<Ast>>),
    Not(Box<Ast>),
    Comparison { operator: ComparisonExpr, left: Box<Ast>, right: Box<Ast> },
    LogicalExpr { operator: LogicalExpr, left: Box<Ast>, right: Box<Ast> },
    BitwiseShift { shift_direction: BitwiseShift, left: Box<Ast>, right: Box<Ast> },
    BinaryOperator { operator: BinaryOperator, left: Box<Ast>, right: Box<Ast> },
    VariableDeclaration { identifier: String, right: Box<Ast>, constant: bool },
    Assignment { identifier: Box<Ast>, right: Box<Ast>, local: bool },
    MemberExpression { left: Box<Ast>, right: Box<Ast> },
    CallExpression { left: Box<Ast>, arguments: Vec<Ast> },
    IfExpression { check: Box<Ast>, body: Vec<Ast> },
    String(String),
    Int(i32),
    Float(String),
    Identifier(String),
}

/// The mathematical value of an [`Ast`]: the same tree, with sequences for
/// vectors and for text.
#[allow(inconsistent_fields)]
pub enum Tree {
    Program(Seq<Tree>),
    Not(Box<Tree>),
    Comparison { operator: ComparisonExpr, left: Box<Tree>, right: Box<Tree> },
    LogicalExpr { operator: LogicalExpr, left: Box<Tree>, right: Box<Tree> },
    BitwiseShift { shift_direction: BitwiseShift, left: Box<Tree>, right: Box<Tree> },
    BinaryOperator { operator: BinaryOperator, left: Box<Tree>, right: Box<Tree> },
    VariableDeclaration { identifier: Seq<char>, right: Box<Tree>, constant: bool },
    Assignment { identifier: Box<Tree>, right: Box<Tree>, local: bool },
    MemberExpression { left: Box<Tree>, right: Box<Tree> },
    CallExpression { left: Box<Tree>, arguments: Seq<Tree> },
    IfExpression { check: Box<Tree>, body: Seq<Tree> },
    String(Seq<char>),
    Int(i32),
    Float(Seq<char>),
    Identifier(Seq<char>),
}

impl Ast {
    /// The tree that this node stands for.
    pub open spec fn tree(&self) -> Tree
        decreases self,
    {
        match self {
            Ast::Program(body) => Tree::Program(
                Seq::new(
                    body.len() as nat,
                    |i: int|
                        if 0 <= i < body.len() {
                            body[i].tree()
                        } else {
                            Tree::Int(0)
                        },
                ),
            ),
            Ast::Not(operand) => Tree::Not(Box::new(operand.tree())),
            Ast::Comparison { operator, left, right } => Tree::Comparison {
                operator: *operator,
                left: Box::new(left.tree()),
                right: Box::new(right.tree()),
            },
            Ast::LogicalExpr { operator, left, right } => Tree::LogicalExpr {
                operator: *operator,
                left: Box::new(left.tree()),
                right: Box::new(right.tree()),
            },
            Ast::BitwiseShift { shift_direction, left, right } => Tree::BitwiseShift {
                shift_direction: *shift_direction,
                left: Box::new(left.tree()),
                right: Box::new(right.tree()),
            },
            Ast::BinaryOperator { operator, left, right } => Tree::BinaryOperator {
                operator: *operator,
                left: Box::new(left.tree()),
                right: Box::new(right.tree()),
            },
            Ast::VariableDeclaration { identifier, right, constant } => Tree::VariableDeclaration {
                identifier: identifier@,
                right: Box::new(right.tree()),
                constant: *constant,
            },
            Ast::Assignment { identifier, right, local } => Tree::Assignment {
                identifier: Box::new(identifier.tree()),
                right: Box::new(right.tree()),
                local: *local,
            },
            Ast::MemberExpression { left, right } => Tree::MemberExpression {
                left: Box::new(left.tree()),
                right: Box::new(right.tree()),
            },
            Ast::CallExpression { left, arguments } => Tree::CallExpression {
                left: Box::new(left.tree()),
                arguments: Seq::new(
                    arguments.len() as nat,
                    |i: int|
                        if 0 <= i < arguments.len() {
                            arguments[i].tree()
                        } else {
                            Tree::Int(0)
                        },
                ),
            },
            Ast::IfExpression { check, body } => Tree::IfExpression {
                check: Box::new(check.tree()),
                body: Seq::new(
                    body.len() as nat,
                    |i: int|
                        if 0 <= i < body.len() {
                            body[i].tree()
                        } else {
                            Tree::Int(0)
                        },
                ),
            },
            Ast::String(text) => Tree::String(text@),
            Ast::Int(value) => Tree::Int(*value),
            Ast::Float(text) => Tree::Float(text@),
            Ast::Identifier(name) => Tree::Identifier(name@),
        }
    }
}

impl View for Ast {
    type V = Tree;

    open spec fn view(&self) -> Tree {
        self.tree()
    }
}

/// The trees of a sequence of nodes.
pub open spec fn trees(nodes: Seq<Ast>) -> Seq<Tree> {
    Seq::new(nodes.len(), |i: int| nodes[i]@)
}

/// The trees of a sequence of boxed nodes.
pub open spec fn boxed_trees(nodes: Seq<Box<Ast>>) -> Seq<Tree> {
    Seq::new(nodes.len(), |i: int| nodes[i]@)
}

/// What the view of a node with children says of them.
pub proof fn lemma_view_of_children(node: Ast)
    ensures
        node matches Ast::Program(body) ==> node@ == Tree::Program(boxed_trees(body@)),
        node matches Ast::CallExpression { left, arguments } ==> node@ == (Tree::CallExpression {
            left: Box::new(left@),
            arguments: trees(arguments@),
        }),
        node matches Ast::IfExpression { check, body } ==> node@ == (Tree::IfExpression {
            check: Box::new(check@),
            body: trees(body@),
        }),
{
    match node {
        Ast::Program(body) => {
            assert(node@->Program_0 =~= boxed_trees(body@));
        },
        Ast::CallExpression { left, arguments } => {
            assert(node@->CallExpression_arguments =~= trees(arguments@));
        },
        Ast::IfExpression { check, body } => {
            assert(node@->IfExpression_body =~= trees(body@));
        },
        _ => {},
    }
}

} // verus!
