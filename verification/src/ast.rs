//! Syntax-tree data model for the BabyDuck language.
//!
//! The tree is produced by a parser outside this crate; the library consumes
//! it to build the symbol directory and to generate intermediate code.
//! Float literals are carried as IEEE-754 bit patterns (`u64`), so that the
//! compiler's handling of them (constant pooling, address assignment) is by
//! exact bit equality.

use vstd::prelude::*;

verus! {

/// The three value types of the language.
#[derive(Debug, Clone, Copy, PartialEq, Eq, Structural)]
pub enum Type {
    Int,
    Float,
    Bool,
}

/// One declared variable: its name and type.
#[derive(Debug)]
pub struct VarDeclaration {
    pub id: String,
    pub var_type: Type,
}

/// One declared procedure parameter: its name and type.
#[derive(Debug)]
pub struct Parameter {
    pub id: String,
    pub param_type: Type,
}

/// Binary operators: two arithmetic precedence tiers and the comparisons.
#[derive(Debug, Clone, Copy, PartialEq, Eq, Structural)]
pub enum Operator {
    Plus,
    Minus,
    Multiply,
    Divide,
    GreaterThan,
    LessThan,
    Equal,
    NotEqual,
}

/// An expression. `FloatLiteral` holds the bit pattern of the IEEE-754
/// double the literal denotes.
#[derive(Debug)]
pub enum Expression {
    BinaryOp { left: Box<Expression>, operator: Operator, right: Box<Expression> },
    Identifier(String),
    IntegerLiteral(i32),
    FloatLiteral(u64),
    BooleanLiteral(bool),
}

/// `name = expression;`
#[derive(Debug)]
pub struct Assignment {
    pub id: String,
    pub expression: Expression,
}

/// A print statement: either an expression or an immediate string literal.
#[derive(Debug)]
pub enum PrintStatement {
    Expression(Expression),
    StringLiteral(String),
}

/// `if (condition) { .. } else { .. }`, the else body optional.
#[derive(Debug)]
pub struct Condition {
    pub condition: Expression,
    pub if_body: Vec<Statement>,
    pub else_body: Option<Vec<Statement>>,
}

/// `while (condition) do { .. };`
#[derive(Debug)]
pub struct Cycle {
    pub condition: Expression,
    pub body: Vec<Statement>,
}

/// A call of a declared procedure with argument expressions.
#[derive(Debug)]
pub struct FunctionCall {
    pub id: String,
    pub arguments: Vec<Expression>,
}

/// One statement of a body.
#[derive(Debug)]
pub enum Statement {
    Assignment(Assignment),
    Condition(Condition),
    Cycle(Cycle),
    FunctionCall(FunctionCall),
    Print(PrintStatement),
}

/// A procedure declaration: parameters, local variables, body.
#[derive(Debug)]
pub struct FunctionDeclaration {
    pub id: String,
    pub parameters: Vec<Parameter>,
    pub vars: Vec<VarDeclaration>,
    pub body: Vec<Statement>,
}

/// A whole program: its name, global variables, procedures, and main body.
#[derive(Debug)]
pub struct Program {
    pub id: String,
    pub vars: Vec<VarDeclaration>,
    pub funcs: Vec<FunctionDeclaration>,
    pub main_body: Vec<Statement>,
}

/// Structural size of an expression: the number of its nodes. Used as a
/// termination measure for the tree walks.
pub open spec fn expr_size(e: Expression) -> nat
    decreases e,
{
    match e {
        Expression::BinaryOp { left, right, .. } => 1 + expr_size(*left) + expr_size(*right),
        _ => 1,
    }
}

/// Structural size of one statement, counting nested bodies.
pub open spec fn stmt_size(s: Statement) -> nat
    decreases s,
{
    match s {
        Statement::Assignment(_) => 1,
        Statement::Print(_) => 1,
        Statement::FunctionCall(_) => 1,
        Statement::Condition(c) => {
            1 + stmts_size(c.if_body@) + match c.else_body {
                Some(e) => stmts_size(e@),
                None => 0nat,
            }
        },
        Statement::Cycle(c) => 1 + stmts_size(c.body@),
    }
}

/// Structural size of a statement list.
pub open spec fn stmts_size(ss: Seq<Statement>) -> nat
    decreases ss,
{
    if ss.len() == 0 {
        0
    } else {
        stmt_size(ss[0]) + stmts_size(ss.drop_first())
    }
}

/// Every element of a statement list is no larger than the whole list.
pub proof fn lemma_stmt_size_le(ss: Seq<Statement>, i: int)
    requires
        0 <= i < ss.len(),
    ensures
        stmt_size(ss[i]) <= stmts_size(ss),
    decreases ss.len(),
{
    if i > 0 {
        lemma_stmt_size_le(ss.drop_first(), i - 1);
        assert(ss.drop_first()[i - 1] == ss[i]);
    }
}

} // verus!
