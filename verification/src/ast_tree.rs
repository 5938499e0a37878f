//! The abstract syntax tree, and its specification-level mirror in which
//! names appear as character sequences and constants as integers.

use vstd::prelude::*;

verus! {

#[derive(Debug, Clone, Copy, PartialEq, Eq, Structural)]
pub enum UnaryOperatorNode {
    Complement,
    Negate,
    Not,
}

#[derive(Debug, Clone, Copy, PartialEq, Eq, Structural)]
pub enum BinaryOperatorNode {
    Add,
    Subtract,
    Multiply,
    Divide,
    Remainder,
    And,
    Or,
    Equal,
    NotEqual,
    LessThan,
    LessOrEqual,
    GreaterThan,
    GreaterOrEqual,
}

/// An expression: a tree owned by its parent, with no sharing.
#[derive(Debug, PartialEq, Eq)]
pub enum ExpressionNode {
    Constant(usize),
    Var(String),
    Unary(UnaryOperatorNode, Box<ExpressionNode>),
    Binary(BinaryOperatorNode, Box<ExpressionNode>, Box<ExpressionNode>),
    Assignment(Box<ExpressionNode>, Box<ExpressionNode>),
}

#[derive(Debug, PartialEq, Eq)]
pub enum StatementNode {
    Return(ExpressionNode),
    Expression(ExpressionNode),
    Null,
}

#[derive(Debug, PartialEq, Eq)]
pub enum DeclarationNode {
    Declaration(String, Option<ExpressionNode>),
}

#[derive(Debug, PartialEq, Eq)]
pub enum BlockItemNode {
    StatementItem(StatementNode),
    DeclarationItem(DeclarationNode),
}

#[derive(Debug, PartialEq, Eq)]
pub enum FunctionDefinitionNode {
    Function(String, Vec<BlockItemNode>),
}

#[derive(Debug, PartialEq, Eq)]
pub enum ProgramNode {
    Program(FunctionDefinitionNode),
}

/// The model of an expression.
pub enum SpecExp {
    Constant(int),
    Var(Seq<char>),
    Unary(UnaryOperatorNode, Box<SpecExp>),
    Binary(BinaryOperatorNode, Box<SpecExp>, Box<SpecExp>),
    Assignment(Box<SpecExp>, Box<SpecExp>),
}

pub enum SpecStatement {
    Return(SpecExp),
    Expression(SpecExp),
    Null,
}

pub enum SpecDeclaration {
    Declaration(Seq<char>, Option<SpecExp>),
}

pub enum SpecBlockItem {
    StatementItem(SpecStatement),
    DeclarationItem(SpecDeclaration),
}

pub enum SpecFunction {
    Function(Seq<char>, Seq<SpecBlockItem>),
}

pub enum SpecProgram {
    Program(SpecFunction),
}

impl View for ExpressionNode {
    type V = SpecExp;

    open spec fn view(&self) -> SpecExp
        decreases self,
    {
        match self {
            ExpressionNode::Constant(n) => SpecExp::Constant(*n as int),
            ExpressionNode::Var(s) => SpecExp::Var(s@),
            ExpressionNode::Unary(op, e) => SpecExp::Unary(*op, Box::new((**e)@)),
            ExpressionNode::Binary(op, a, b) => SpecExp::Binary(
                *op,
                Box::new((**a)@),
                Box::new((**b)@),
            ),
            ExpressionNode::Assignment(l, r) => SpecExp::Assignment(
                Box::new((**l)@),
                Box::new((**r)@),
            ),
        }
    }
}

impl View for StatementNode {
    type V = SpecStatement;

    open spec fn view(&self) -> SpecStatement {
        match self {
            StatementNode::Return(e) => SpecStatement::Return(e@),
            StatementNode::Expression(e) => SpecStatement::Expression(e@),
            StatementNode::Null => SpecStatement::Null,
        }
    }
}

impl View for DeclarationNode {
    type V = SpecDeclaration;

    open spec fn view(&self) -> SpecDeclaration {
        match self {
            DeclarationNode::Declaration(name, init) => SpecDeclaration::Declaration(
                name@,
                match init {
                    Some(e) => Some(e@),
                    None => None,
                },
            ),
        }
    }
}

impl View for BlockItemNode {
    type V = SpecBlockItem;

    open spec fn view(&self) -> SpecBlockItem {
        match self {
            BlockItemNode::StatementItem(s) => SpecBlockItem::StatementItem(s@),
            BlockItemNode::DeclarationItem(d) => SpecBlockItem::DeclarationItem(d@),
        }
    }
}

/// The model of a block-item vector.
pub open spec fn items_view(items: Seq<BlockItemNode>) -> Seq<SpecBlockItem> {
    items.map(|i: int, b: BlockItemNode| b@)
}

impl View for FunctionDefinitionNode {
    type V = SpecFunction;

    open spec fn view(&self) -> SpecFunction {
        match self {
            FunctionDefinitionNode::Function(name, items) => SpecFunction::Function(
                name@,
                items_view(items@),
            ),
        }
    }
}

impl View for ProgramNode {
    type V = SpecProgram;

    open spec fn view(&self) -> SpecProgram {
        match self {
            ProgramNode::Program(f) => SpecProgram::Program(f@),
        }
    }
}

} // verus!
