//! The abstract syntax tree for statements and expressions, its
//! mathematical views, and the well-formedness predicates that say when a
//! tree can come out of a parse.

use vstd::prelude::*;

use crate::token::{is_ident_char, is_ident_start_char, spec_keyword_of};

verus! {

/// A binary operator of an expression.
#[derive(Debug, Clone, Copy, PartialEq, Eq, Structural)]
pub enum BinaryOperator {
    Plus,
    Minus,
    Multiply,
    Divide,
    Equal,
    NotEqual,
    GreaterThan,
    GreaterThanOrEqual,
    LessThan,
    LessThanOrEqual,
    And,
    Or,
}

/// A unary operator of an expression. The ordering keywords of `ORDER BY`
/// are carried as unary operators applied to the sort key.
#[derive(Debug, Clone, Copy, PartialEq, Eq, Structural)]
pub enum UnaryOperator {
    Plus,
    Minus,
    Not,
    Asc,
    Desc,
}

/// An expression: a finite tree, each node owning its children.
#[derive(Debug, PartialEq)]
pub enum Expression {
    Number(u64),
    String(String),
    Bool(bool),
    Identifier(String),
    BinaryOperation {
        left_operand: Box<Expression>,
        operator: BinaryOperator,
        right_operand: Box<Expression>,
    },
    UnaryOperation { operator: UnaryOperator, operand: Box<Expression> },
}

/// The mathematical value of an [`Expression`]: owned text is seen as its
/// character sequence.
pub enum SpecExpression {
    Number(u64),
    String(Seq<char>),
    Bool(bool),
    Identifier(Seq<char>),
    BinaryOperation {
        left_operand: Box<SpecExpression>,
        operator: BinaryOperator,
        right_operand: Box<SpecExpression>,
    },
    UnaryOperation { operator: UnaryOperator, operand: Box<SpecExpression> },
}

impl DeepView for Expression {
    type V = SpecExpression;

    open spec fn deep_view(&self) -> SpecExpression
        decreases self,
    {
        match self {
            Expression::Number(n) => SpecExpression::Number(*n),
            Expression::String(s) => SpecExpression::String(s@),
            Expression::Bool(b) => SpecExpression::Bool(*b),
            Expression::Identifier(s) => SpecExpression::Identifier(s@),
            Expression::BinaryOperation { left_operand, operator, right_operand } => {
                SpecExpression::BinaryOperation {
                    left_operand: Box::new((**left_operand).deep_view()),
                    operator: *operator,
                    right_operand: Box::new((**right_operand).deep_view()),
                }
            },
            Expression::UnaryOperation { operator, operand } => {
                SpecExpression::UnaryOperation {
                    operator: *operator,
                    operand: Box::new((**operand).deep_view()),
                }
            },
        }
    }
}

/// A column type of a `CREATE TABLE` definition.
#[derive(Debug, Clone, Copy, PartialEq, Eq, Structural)]
pub enum DBType {
    Int,
    Bool,
    Varchar(usize),
}

/// A column constraint of a `CREATE TABLE` definition.
#[derive(Debug, PartialEq)]
pub enum Constraint {
    PrimaryKey,
    NotNull,
    Check(Expression),
}

/// The mathematical value of a [`Constraint`].
pub enum SpecConstraint {
    PrimaryKey,
    NotNull,
    Check(SpecExpression),
}

impl DeepView for Constraint {
    type V = SpecConstraint;

    open spec fn deep_view(&self) -> SpecConstraint {
        match self {
            Constraint::PrimaryKey => SpecConstraint::PrimaryKey,
            Constraint::NotNull => SpecConstraint::NotNull,
            Constraint::Check(e) => SpecConstraint::Check(e.deep_view()),
        }
    }
}

/// One column of a `CREATE TABLE` definition.
#[derive(Debug, PartialEq)]
pub struct TableColumn {
    pub column_name: String,
    pub column_type: DBType,
    pub constraints: Vec<Constraint>,
}

/// The mathematical value of a [`TableColumn`].
pub struct SpecTableColumn {
    pub column_name: Seq<char>,
    pub column_type: DBType,
    pub constraints: Seq<SpecConstraint>,
}

impl DeepView for TableColumn {
    type V = SpecTableColumn;

    open spec fn deep_view(&self) -> SpecTableColumn {
        SpecTableColumn {
            column_name: self.column_name@,
            column_type: self.column_type,
            constraints: self.constraints.deep_view(),
        }
    }
}

/// One parsed statement.
#[derive(Debug, PartialEq)]
pub enum Statement {
    /// `SELECT` with an explicit, never empty, column list.
    Select {
        columns: Vec<Expression>,
        from: String,
        where_clause: Option<Expression>,
        orderby: Vec<Expression>,
    },
    /// The `SELECT *` form: all columns.
    SelectAll { from: String, where_clause: Option<Expression>, orderby: Vec<Expression> },
    /// `CREATE TABLE` with its column definitions.
    CreateTable { table_name: String, column_list: Vec<TableColumn> },
}

/// The mathematical value of a [`Statement`].
pub enum SpecStatement {
    Select {
        columns: Seq<SpecExpression>,
        from: Seq<char>,
        where_clause: Option<SpecExpression>,
        orderby: Seq<SpecExpression>,
    },
    SelectAll { from: Seq<char>, where_clause: Option<SpecExpression>, orderby: Seq<SpecExpression> },
    CreateTable { table_name: Seq<char>, column_list: Seq<SpecTableColumn> },
}

impl DeepView for Statement {
    type V = SpecStatement;

    open spec fn deep_view(&self) -> SpecStatement {
        match self {
            Statement::Select { columns, from, where_clause, orderby } => SpecStatement::Select {
                columns: columns.deep_view(),
                from: from@,
                where_clause: where_clause.deep_view(),
                orderby: orderby.deep_view(),
            },
            Statement::SelectAll { from, where_clause, orderby } => SpecStatement::SelectAll {
                from: from@,
                where_clause: where_clause.deep_view(),
                orderby: orderby.deep_view(),
            },
            Statement::CreateTable { table_name, column_list } => SpecStatement::CreateTable {
                table_name: table_name@,
                column_list: column_list.deep_view(),
            },
        }
    }
}

/// Whether `s` is a well-formed identifier: a non-empty run of identifier
/// characters starting with a letter or underscore, whose case folding is
/// not a keyword. The scanner produces identifier tokens of exactly this
/// shape.
pub open spec fn wf_ident(s: Seq<char>) -> bool {
    &&& s.len() >= 1
    &&& is_ident_start_char(s[0])
    &&& forall|k: int| 0 <= k < s.len() ==> is_ident_char(s[k])
    &&& spec_keyword_of(s) is None
}

/// Whether every identifier inside the expression is well formed.
pub open spec fn wf_expression(e: SpecExpression) -> bool
    decreases e,
{
    match e {
        SpecExpression::Number(_) => true,
        SpecExpression::String(_) => true,
        SpecExpression::Bool(_) => true,
        SpecExpression::Identifier(s) => wf_ident(s),
        SpecExpression::BinaryOperation { left_operand, operator, right_operand } => {
            wf_expression(*left_operand) && wf_expression(*right_operand)
        },
        SpecExpression::UnaryOperation { operator, operand } => wf_expression(*operand),
    }
}

/// Whether every expression of the sequence is well formed.
pub open spec fn wf_expressions(es: Seq<SpecExpression>) -> bool {
    forall|i: int| 0 <= i < es.len() ==> wf_expression(es[i])
}

/// Whether the optional expression, if present, is well formed.
pub open spec fn wf_opt_expression(e: Option<SpecExpression>) -> bool {
    match e {
        Some(w) => wf_expression(w),
        None => true,
    }
}

/// Whether the constraint's expression, if it has one, is well formed.
pub open spec fn wf_constraint(c: SpecConstraint) -> bool {
    match c {
        SpecConstraint::PrimaryKey => true,
        SpecConstraint::NotNull => true,
        SpecConstraint::Check(e) => wf_expression(e),
    }
}

/// Whether the column is well formed: name, bounded `VARCHAR` length, and
/// constraints.
pub open spec fn wf_column(c: SpecTableColumn) -> bool {
    &&& wf_ident(c.column_name)
    &&& match c.column_type {
        DBType::Varchar(n) => 1 <= n <= 65535,
        _ => true,
    }
    &&& forall|i: int| 0 <= i < c.constraints.len() ==> wf_constraint(c.constraints[i])
}

/// Whether the statement could have come out of a successful parse: all
/// identifiers are well formed, the column lists are never empty, and
/// every `VARCHAR` length lies in its domain.
pub open spec fn wf_statement(s: SpecStatement) -> bool {
    match s {
        SpecStatement::Select { columns, from, where_clause, orderby } => {
            &&& columns.len() >= 1
            &&& wf_expressions(columns)
            &&& wf_ident(from)
            &&& wf_opt_expression(where_clause)
            &&& wf_expressions(orderby)
        },
        SpecStatement::SelectAll { from, where_clause, orderby } => {
            &&& wf_ident(from)
            &&& wf_opt_expression(where_clause)
            &&& wf_expressions(orderby)
        },
        SpecStatement::CreateTable { table_name, column_list } => {
            &&& wf_ident(table_name)
            &&& column_list.len() >= 1
            &&& forall|i: int| 0 <= i < column_list.len() ==> wf_column(column_list[i])
        },
    }
}

} // verus!
