//! The syntax tree produced by the parser.

use vstd::prelude::*;

verus! {

/// A half-open range of byte offsets into the source text.
#[derive(Clone, Copy, Debug, PartialEq, Eq, Structural)]
pub struct Span {
    pub start: usize,
    pub end: usize,
}

/// A literal value written in the source.
#[derive(Clone, Debug, PartialEq)]
pub enum Literal {
    Bool(bool),
    Int(i64),
    String(String),
    /// A float literal, kept as the text it was written with.
    Float(String),
    NoneLit,
}

#[derive(Clone, Copy, Debug, PartialEq, Eq, Structural)]
pub enum UnaryOp {
    Not,
    Negate,
    Pos,
}

#[derive(Clone, Copy, Debug, PartialEq, Eq, Structural)]
pub enum BinaryOp {
    Add,
    Subtract,
    Multiply,
    Divide,
    FloorDivide,
    Modulo,
    Equal,
    NotEqual,
    Less,
    LessEqual,
    Greater,
    GreaterEqual,
    And,
    Or,
}

/// An expression with its span.
pub type ExprS = (Expr, Span);

/// A statement with its span.
pub type StmtS = (Stmt, Span);

#[derive(Debug)]
pub enum Expr {
    Literal(Literal),
    Variable(String),
    Unary { op: UnaryOp, expr: Box<ExprS> },
    Binary { op: BinaryOp, left: Box<ExprS>, right: Box<ExprS> },
    Call { func_name: Box<ExprS>, args: Vec<ExprS> },
    Attribute { object: Box<ExprS>, attr: String },
    List(Vec<ExprS>),
    Dict(Vec<(ExprS, ExprS)>),
    Index { object: Box<ExprS>, index: Box<ExprS> },
    Lambda { params: Vec<String>, body: Box<ExprS> },
    Tuple(Vec<ExprS>),
    SetLit(Vec<ExprS>),
    TreeSet(Vec<ExprS>),
}

#[derive(Debug)]
pub enum Stmt {
    If {
        condition: ExprS,
        then_block: Vec<StmtS>,
        elif_blocks: Vec<(ExprS, Vec<StmtS>)>,
        else_block: Option<Vec<StmtS>>,
    },
    While { condition: ExprS, body: Vec<StmtS> },
    For { var: String, iterable: ExprS, body: Vec<StmtS> },
    Def { name: String, params: Vec<String>, body: Vec<StmtS> },
    Return(ExprS),
    Assign { target: ExprS, value: ExprS },
    Class { name: String, methods: Vec<MethodDef>, attributes: Vec<(String, ExprS)> },
    Expr(ExprS),
    Break,
    Continue,
    Pass,
}

#[derive(Debug)]
pub struct MethodDef {
    pub name: String,
    pub params: Vec<String>,
    pub body: Vec<StmtS>,
}

} // verus!
