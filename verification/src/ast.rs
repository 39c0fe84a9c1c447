//! The abstract syntax the compiler consumes. The parser producing it is
//! an external collaborator; these types are the interface.

use vstd::prelude::*;

verus! {

/// A parsed program: its statements in source order.
pub struct Program {
    pub statements: Vec<Statement>,
}

/// A block of statements, as the body of an `if` arm or of a function.
pub struct BlockStatement {
    pub statements: Vec<Statement>,
}

/// A statement.
pub enum Statement {
    /// An expression evaluated for its value, which is then discarded.
    ExpressionStatement { expression: Expression },
    /// `let name = value;`
    LetStatement { name: String, value: Expression },
    /// `return value;`
    ReturnStatement { return_value: Expression },
}

/// An expression.
#[allow(inconsistent_fields)]
pub enum Expression {
    IntegerLiteral { value: i64 },
    BooleanLiteral { value: bool },
    StringLiteral { value: String },
    Identifier { value: String },
    /// `!right` or `-right`.
    PrefixExpression { operator: String, right: Box<Expression> },
    /// `left operator right`.
    InfixExpression { operator: String, left: Box<Expression>, right: Box<Expression> },
    /// `if (condition) { consequence } else { alternative }`; the
    /// alternative is optional.
    IfExpression {
        condition: Box<Expression>,
        consequence: BlockStatement,
        alternative: Option<BlockStatement>,
    },
    /// `[e1, e2, ...]`
    ArrayLiteral { elements: Vec<Expression> },
    /// `{k1: v1, k2: v2, ...}` in source order.
    HashLiteral { pairs: Vec<(Expression, Expression)> },
    /// `left[index]`
    IndexExpression { left: Box<Expression>, index: Box<Expression> },
    /// `fn(p1, p2, ...) { body }`
    FunctionLiteral { parameters: Vec<String>, body: BlockStatement },
    /// `function(a1, a2, ...)`
    CallExpression { function: Box<Expression>, arguments: Vec<Expression> },
}

} // verus!
