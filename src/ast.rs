//! The flat syntax tree: content nodes, block markers, expressions and values, each with a
//! model in which text is a sequence of characters.
use crate::number::Number;
use vstd::prelude::*;

verus! {

broadcast use vstd::std_specs::vec::axiom_vec_decreases_to_view;

#[derive(Debug)]
pub enum Value {
    Boolean(bool),
    Number(Number),
    String(String),
    /// A name still to be looked up in the environment.
    Variable(String),
    /// Only an environment holds arrays; the template syntax cannot write one.
    Array(Vec<Value>),
    Null,
}

pub enum ValueModel {
    Boolean(bool),
    Number(Number),
    Str(Seq<char>),
    Variable(Seq<char>),
    Array(Seq<ValueModel>),
    Null,
}

pub open spec fn value_model(v: Value) -> ValueModel
    decreases v,
{
    match v {
        Value::Boolean(b) => ValueModel::Boolean(b),
        Value::Number(n) => ValueModel::Number(n),
        Value::String(s) => ValueModel::Str(s@),
        Value::Variable(s) => ValueModel::Variable(s@),
        Value::Array(items) => ValueModel::Array(values_model(items@)),
        Value::Null => ValueModel::Null,
    }
}

pub open spec fn values_model(s: Seq<Value>) -> Seq<ValueModel>
    decreases s,
{
    if s.len() == 0 {
        seq![]
    } else {
        values_model(s.drop_last()).push(value_model(s.last()))
    }
}

impl View for Value {
    type V = ValueModel;

    open spec fn view(&self) -> ValueModel {
        value_model(*self)
    }
}

#[derive(Clone, Copy, Debug, PartialEq, Eq, Structural)]
pub enum BinaryOp {
    Add,
    Subtract,
    Multiply,
    Divide,
    Modulo,
    Equals,
    NotEquals,
    GreaterThan,
    GreaterThanOrEquals,
    LessThan,
    LessThanOrEquals,
    And,
    Or,
    Concat,
    Index,
}

#[derive(Clone, Copy, Debug, PartialEq, Eq, Structural)]
pub enum UnaryOp {
    /// Parentheses: the operand's value unchanged.
    Dummy,
    Not,
    Negate,
}

#[derive(Debug)]
pub enum Expr {
    BinaryOp { kind: BinaryOp, lhs: Box<Expr>, rhs: Box<Expr> },
    UnaryOp { kind: UnaryOp, value: Box<Expr> },
    Function { ident: String, arguments: Vec<Expr> },
    Value(Value),
}

pub enum ExprModel {
    Binary(BinaryOp, Box<ExprModel>, Box<ExprModel>),
    Unary(UnaryOp, Box<ExprModel>),
    Call(Seq<char>, Seq<ExprModel>),
    Leaf(ValueModel),
}

pub open spec fn expr_model(e: Expr) -> ExprModel
    decreases e,
{
    match e {
        Expr::BinaryOp { kind, lhs, rhs } => ExprModel::Binary(
            kind,
            Box::new(expr_model(*lhs)),
            Box::new(expr_model(*rhs)),
        ),
        Expr::UnaryOp { kind, value } => ExprModel::Unary(kind, Box::new(expr_model(*value))),
        Expr::Function { ident, arguments } => ExprModel::Call(ident@, exprs_model(arguments@)),
        Expr::Value(v) => ExprModel::Leaf(v@),
    }
}

pub open spec fn exprs_model(s: Seq<Expr>) -> Seq<ExprModel>
    decreases s,
{
    if s.len() == 0 {
        seq![]
    } else {
        exprs_model(s.drop_last()).push(expr_model(s.last()))
    }
}

impl View for Expr {
    type V = ExprModel;

    open spec fn view(&self) -> ExprModel {
        expr_model(*self)
    }
}

#[derive(Debug)]
pub enum Block {
    If { condition: Expr },
    ElseIf { condition: Expr },
    Else,
    For { element: String, iterable: String },
}

pub enum BlockModel {
    If(ExprModel),
    ElseIf(ExprModel),
    Else,
    For(Seq<char>, Seq<char>),
}

impl View for Block {
    type V = BlockModel;

    open spec fn view(&self) -> BlockModel {
        match self {
            Block::If { condition } => BlockModel::If(condition@),
            Block::ElseIf { condition } => BlockModel::ElseIf(condition@),
            Block::Else => BlockModel::Else,
            Block::For { element, iterable } => BlockModel::For(element@, iterable@),
        }
    }
}

/// One node of the flat tree. A `Block` does not hold its body: the body is the nodes
/// that follow it, up to the matching `EndBlock`.
#[derive(Debug)]
pub enum Content {
    Markup(String),
    Expression(Expr),
    Keys(Vec<String>),
    Block(Block),
    EndBlock,
}

pub enum ContentModel {
    Markup(Seq<char>),
    Expression(ExprModel),
    Keys(Seq<Seq<char>>),
    Block(BlockModel),
    EndBlock,
}

pub open spec fn names_model(v: Seq<String>) -> Seq<Seq<char>> {
    v.map_values(|s: String| s@)
}

impl View for Content {
    type V = ContentModel;

    open spec fn view(&self) -> ContentModel {
        match self {
            Content::Markup(s) => ContentModel::Markup(s@),
            Content::Expression(e) => ContentModel::Expression(e@),
            Content::Keys(names) => ContentModel::Keys(names_model(names@)),
            Content::Block(b) => ContentModel::Block(b@),
            Content::EndBlock => ContentModel::EndBlock,
        }
    }
}

pub open spec fn contents_model(v: Seq<Content>) -> Seq<ContentModel> {
    v.map_values(|c: Content| c@)
}

} // verus!
