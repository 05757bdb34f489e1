//! The syntax tree that the parser builds.

use vstd::prelude::*;

verus! {

/////////////////////////////////////////////////////
// Type
/////////////////////////////////////////////////////
#[derive(Debug)]
pub enum Type {
    Void,
    Bool,
    Char,
    Int8, Int16, Int32, Int64,
    UInt8, UInt16, UInt32, UInt64,
    Float32, Float64,
    String,

    Named(String),
}

/////////////////////////////////////////////////////
// Expression related
/////////////////////////////////////////////////////

/// An expression. A floating-point literal keeps the text it was written
/// with.
#[derive(Debug)]
pub enum Expression {
    BooleanLiteral(bool),
    IntLiteral(i64),
    FloatLiteral(String),

    StringLiteral(String),
    Identifier(String),

    BinaryOp {
        operator: BinaryOperator,
        left: Box<Expression>,
        right: Box<Expression>,
    },
    Call {
        callee: String,
        arguments: Vec<Expression>,
    },
}

#[derive(Debug)]
pub enum BinaryOperator {
    Addition, Subtraction, Multiplication, Division,

    EqualsEquals, NotEquals,

    LessThan, GreaterThan,
    LessThanOrEquals, GreaterThanOrEquals,

    And /*&&*/, Or /*||*/
}

/// An expression as a value: the arguments of a call form a sequence.
pub enum SpecExpression {
    BooleanLiteral(bool),
    IntLiteral(i64),
    FloatLiteral(String),
    StringLiteral(String),
    Identifier(String),
    BinaryOp {
        operator: BinaryOperator,
        left: Box<SpecExpression>,
        right: Box<SpecExpression>,
    },
    Call {
        callee: String,
        arguments: Seq<SpecExpression>,
    },
}

/// The value of an expression.
pub open spec fn expression_value(e: Expression) -> SpecExpression
    decreases e,
{
    match e {
        Expression::BooleanLiteral(b) => SpecExpression::BooleanLiteral(b),
        Expression::IntLiteral(n) => SpecExpression::IntLiteral(n),
        Expression::FloatLiteral(s) => SpecExpression::FloatLiteral(s),
        Expression::StringLiteral(s) => SpecExpression::StringLiteral(s),
        Expression::Identifier(s) => SpecExpression::Identifier(s),
        Expression::BinaryOp { operator, left, right } => SpecExpression::BinaryOp {
            operator,
            left: Box::new(expression_value(*left)),
            right: Box::new(expression_value(*right)),
        },
        Expression::Call { callee, arguments } => SpecExpression::Call {
            callee,
            arguments: expression_values(arguments@),
        },
    }
}

/// The values of a sequence of expressions.
pub open spec fn expression_values(es: Seq<Expression>) -> Seq<SpecExpression>
    decreases es,
{
    if es.len() == 0 {
        seq![]
    } else {
        expression_values(es.drop_last()).push(expression_value(es.last()))
    }
}

impl View for Expression {
    type V = SpecExpression;

    open spec fn view(&self) -> SpecExpression {
        expression_value(*self)
    }
}


/////////////////////////////////////////////////////
// Statement related
/////////////////////////////////////////////////////
#[derive(Debug)]
pub enum Statement {
    Variable {
        name: String,
        variable_type: Type,
        initializer: Option<Expression>,
    },
    Return(Expression),
    Expression(Expression),
}

/// A statement as a value.
pub enum SpecStatement {
    Variable {
        name: String,
        variable_type: Type,
        initializer: Option<SpecExpression>,
    },
    Return(SpecExpression),
    Expression(SpecExpression),
}

impl View for Statement {
    type V = SpecStatement;

    open spec fn view(&self) -> SpecStatement {
        match self {
            Statement::Variable { name, variable_type, initializer } => SpecStatement::Variable {
                name: *name,
                variable_type: *variable_type,
                initializer: match initializer {
                    Some(e) => Some(e@),
                    None => None,
                },
            },
            Statement::Return(e) => SpecStatement::Return(e@),
            Statement::Expression(e) => SpecStatement::Expression(e@),
        }
    }
}

#[derive(Debug)]
pub struct Block {
    pub statements: Vec<Statement>,
}

/// The values of a sequence of statements.
pub open spec fn statement_values(statements: Seq<Statement>) -> Seq<SpecStatement> {
    statements.map_values(|s: Statement| s@)
}

impl View for Block {
    type V = Seq<SpecStatement>;

    open spec fn view(&self) -> Seq<SpecStatement> {
        statement_values(self.statements@)
    }
}

/////////////////////////////////////////////////////
// Function related
/////////////////////////////////////////////////////
#[derive(Debug)]
pub struct Parameter {
    pub name: String,
    pub parameter_type: Type,
}

#[derive(Debug)]
pub struct FunctionDefinition {
    pub name: String,
    pub parameters: Vec<Parameter>,
    pub return_type: Type,
    pub body: Block,
}

/// A function definition as a value.
pub struct SpecFunctionDefinition {
    pub name: String,
    pub parameters: Seq<Parameter>,
    pub return_type: Type,
    pub body: Seq<SpecStatement>,
}

impl View for FunctionDefinition {
    type V = SpecFunctionDefinition;

    open spec fn view(&self) -> SpecFunctionDefinition {
        SpecFunctionDefinition {
            name: self.name,
            parameters: self.parameters@,
            return_type: self.return_type,
            body: self.body@,
        }
    }
}

/////////////////////////////////////////////////////
// Item
/////////////////////////////////////////////////////
#[derive(Debug)]
pub enum Item {
    Function(FunctionDefinition),
}

/// An item as a value.
pub enum SpecItem {
    Function(SpecFunctionDefinition),
}

impl View for Item {
    type V = SpecItem;

    open spec fn view(&self) -> SpecItem {
        match self {
            Item::Function(f) => SpecItem::Function(f@),
        }
    }
}

} // verus!
