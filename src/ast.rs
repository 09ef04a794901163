//! The abstract syntax tree handed over by the parser.
//!
//! Floating-point literals are carried as the bit pattern of an IEEE-754
//! single-precision number (`f32::to_bits`), so that every value of the tree
//! is a plain integer or text.
use vstd::prelude::*;

verus! {

/// A whole program: its name, its declarations, then its statements.
#[derive(Debug)]
pub struct Program {
    pub name: String,
    pub declarations: Vec<Declaration>,
    pub statements: Vec<Statement>,
}

#[derive(Debug)]
pub enum Declaration {
    /// Several names sharing one type: a type name, or an array type.
    VariableDecl { names: Vec<String>, type_spec: Expression },
    /// A named compile-time constant.
    ConstDecl { name: String, ty_name: String, value: Expression },
}

#[derive(Debug)]
pub enum Statement {
    Assignment { target: Variable, value: Expression },
    IfElse { condition: Condition, if_branch: Vec<Statement>, else_branch: Vec<Statement> },
    /// Post-test loop: the body runs once, then again while the condition holds.
    DoWhile { condition: Condition, body: Vec<Statement> },
    /// Counted loop.
    For {
        var: String,
        start: Expression,
        end: Expression,
        step: Expression,
        body: Vec<Statement>,
    },
    Input { var: String },
    Output { expressions: Vec<Expression> },
}

#[derive(Debug)]
pub enum Expression {
    Var(Variable),
    Integer(i32),
    /// Bit pattern of a single-precision float.
    Float(u32),
    String(String),
    Type(String),
    ArrayType { ty_name: String, size: i32 },
    Binary { left: Box<Expression>, op: BinaryOp, right: Box<Expression> },
    Not(Box<Expression>),
    /// A literal as the grammar wraps it; it means what the inner expression means.
    Literal(Box<Expression>),
}

#[derive(Debug)]
pub enum Variable {
    Simple(String),
    Array { name: String, index: Box<Expression> },
}

#[derive(Clone, Copy, Debug, PartialEq, Eq, Structural)]
pub enum BinaryOp {
    Add,
    Subtract,
    Multiply,
    Divide,
    LessThan,
    GreaterThan,
    LessEqual,
    GreaterEqual,
    Equal,
    NotEqual,
    And,
    Or,
}

#[derive(Debug)]
pub enum Condition {
    Expr(Expression),
}

} // verus!
