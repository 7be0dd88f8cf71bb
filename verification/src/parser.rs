//! The parser: a precedence-climbing expression parser under a
//! recursive-descent statement parser, working over the scanner's token
//! sequence.
//!
//! The `spec_parse_*` functions are the mathematical description of the
//! grammar; each method of [`Parser`] is proved to return exactly the
//! value of its counterpart. Grammar positions are cursor indices into
//! the token sequence; a successful sub-parse always moves the cursor
//! strictly forward and never past the end.

use vstd::prelude::*;

use crate::statement::{
    BinaryOperator, Constraint, DBType, Expression, SpecConstraint, SpecExpression, SpecStatement,
    SpecTableColumn, Statement, TableColumn, UnaryOperator,
};
use crate::token::{Keyword, SpecToken, Token};
use crate::tokenizer::{spec_scan, Tokenizer, TokenizerError};

verus! {

/// An error of the parser. A lexical error is carried through unchanged.
#[derive(Debug, PartialEq)]
pub enum ParseError {
    /// The grammar expected a different token than the one present.
    UnexpectedToken(Token),
    /// The grammar expected a token but the input was exhausted.
    UnexpectedEnd,
    /// A `VARCHAR` length outside `1..=65535`.
    InvalidVarcharLength,
    /// A column type that is neither `INT`, `BOOL` nor `VARCHAR(..)`.
    InvalidColumnType,
    /// The scanner failed; its error is surfaced unchanged.
    Lex(TokenizerError),
}

/// The mathematical value of a [`ParseError`].
pub enum SpecParseError {
    UnexpectedToken(SpecToken),
    UnexpectedEnd,
    InvalidVarcharLength,
    InvalidColumnType,
    Lex(TokenizerError),
}

impl DeepView for ParseError {
    type V = SpecParseError;

    open spec fn deep_view(&self) -> SpecParseError {
        match self {
            ParseError::UnexpectedToken(t) => SpecParseError::UnexpectedToken(t.deep_view()),
            ParseError::UnexpectedEnd => SpecParseError::UnexpectedEnd,
            ParseError::InvalidVarcharLength => SpecParseError::InvalidVarcharLength,
            ParseError::InvalidColumnType => SpecParseError::InvalidColumnType,
            ParseError::Lex(e) => SpecParseError::Lex(*e),
        }
    }
}

/// The precedence at which a unary prefix operator binds its operand:
/// above every binary operator.
pub const UNARY_PRECEDENCE: u8 = 80;

/// The binary operator a token stands for, if any.
pub open spec fn spec_binop_of(t: SpecToken) -> Option<BinaryOperator> {
    match t {
        SpecToken::Plus => Some(BinaryOperator::Plus),
        SpecToken::Minus => Some(BinaryOperator::Minus),
        SpecToken::Star => Some(BinaryOperator::Multiply),
        SpecToken::Divide => Some(BinaryOperator::Divide),
        SpecToken::Equal => Some(BinaryOperator::Equal),
        SpecToken::NotEqual => Some(BinaryOperator::NotEqual),
        SpecToken::GreaterThan => Some(BinaryOperator::GreaterThan),
        SpecToken::GreaterThanOrEqual => Some(BinaryOperator::GreaterThanOrEqual),
        SpecToken::LessThan => Some(BinaryOperator::LessThan),
        SpecToken::LessThanOrEqual => Some(BinaryOperator::LessThanOrEqual),
        SpecToken::Keyword(Keyword::And) => Some(BinaryOperator::And),
        SpecToken::Keyword(Keyword::Or) => Some(BinaryOperator::Or),
        _ => None,
    }
}

/// The precedence of a binary operator: higher binds tighter.
pub open spec fn spec_binop_precedence(op: BinaryOperator) -> u8 {
    match op {
        BinaryOperator::Or => 10,
        BinaryOperator::And => 20,
        BinaryOperator::Equal => 30,
        BinaryOperator::NotEqual => 30,
        BinaryOperator::GreaterThan => 40,
        BinaryOperator::GreaterThanOrEqual => 40,
        BinaryOperator::LessThan => 40,
        BinaryOperator::LessThanOrEqual => 40,
        BinaryOperator::Plus => 50,
        BinaryOperator::Minus => 50,
        BinaryOperator::Multiply => 60,
        BinaryOperator::Divide => 60,
    }
}

/// The precedence of a token: its operator's, or zero for a non-operator.
pub open spec fn spec_precedence(t: SpecToken) -> u8 {
    match spec_binop_of(t) {
        Some(op) => spec_binop_precedence(op),
        None => 0,
    }
}

/// The error for an unexpected token at `pos`: the token itself, or the
/// end of input when none remains.
pub open spec fn spec_err_at(toks: Seq<SpecToken>, pos: int) -> SpecParseError {
    if 0 <= pos < toks.len() {
        SpecParseError::UnexpectedToken(toks[pos])
    } else {
        SpecParseError::UnexpectedEnd
    }
}

/// The single "expect" primitive of the grammar: consume the token at
/// `pos` when it equals `t`, fail otherwise.
pub open spec fn spec_expect(toks: Seq<SpecToken>, pos: int, t: SpecToken) -> Result<
    int,
    SpecParseError,
> {
    if 0 <= pos < toks.len() && toks[pos] == t {
        Ok(pos + 1)
    } else {
        Err(spec_err_at(toks, pos))
    }
}

/// An identifier at `pos`: its text, and the cursor past it.
pub open spec fn spec_parse_identifier(toks: Seq<SpecToken>, pos: int) -> Result<
    (Seq<char>, int),
    SpecParseError,
> {
    if 0 <= pos < toks.len() {
        match toks[pos] {
            SpecToken::Identifier(s) => Ok((s, pos + 1)),
            _ => Err(SpecParseError::UnexpectedToken(toks[pos])),
        }
    } else {
        Err(SpecParseError::UnexpectedEnd)
    }
}

/// The next cursor for the recursion measure. A successful sub-parse
/// always lands inside `(pos, len]` — the parser methods' contracts and
/// the well-formedness lemmas of [`crate::laws`] show as much — so for
/// every reachable value the guard keeps the value as it is; it only
/// makes termination of the mutual recursion evident.
pub open spec fn bounded_next(len: int, pos: int, p: int) -> int {
    if pos + 1 <= p <= len {
        p
    } else {
        pos + 1
    }
}

/// A prefix term: a literal, an identifier, a parenthesized expression,
/// or a unary operator applied to an operand parsed at
/// [`UNARY_PRECEDENCE`].
pub open spec fn spec_parse_prefix(toks: Seq<SpecToken>, pos: int) -> Result<
    (SpecExpression, int),
    SpecParseError,
>
    decreases toks.len() - pos, 0int when 0 <= pos <= toks.len()
{
    if pos >= toks.len() {
        Err(SpecParseError::UnexpectedEnd)
    } else {
        match toks[pos] {
            SpecToken::Number(n) => Ok((SpecExpression::Number(n), pos + 1)),
            SpecToken::String(s) => Ok((SpecExpression::String(s), pos + 1)),
            SpecToken::Identifier(s) => Ok((SpecExpression::Identifier(s), pos + 1)),
            SpecToken::Keyword(Keyword::True) => Ok((SpecExpression::Bool(true), pos + 1)),
            SpecToken::Keyword(Keyword::False) => Ok((SpecExpression::Bool(false), pos + 1)),
            SpecToken::LeftParentheses => match spec_parse_expression(toks, pos + 1, 0) {
                Ok((e, p2)) => match spec_expect(toks, p2, SpecToken::RightParentheses) {
                    Ok(p3) => Ok((e, p3)),
                    Err(er) => Err(er),
                },
                Err(er) => Err(er),
            },
            SpecToken::Minus => match spec_parse_expression(toks, pos + 1, UNARY_PRECEDENCE) {
                Ok((e, p2)) => Ok(
                    (
                        SpecExpression::UnaryOperation {
                            operator: UnaryOperator::Minus,
                            operand: Box::new(e),
                        },
                        p2,
                    ),
                ),
                Err(er) => Err(er),
            },
            SpecToken::Plus => match spec_parse_expression(toks, pos + 1, UNARY_PRECEDENCE) {
                Ok((e, p2)) => Ok(
                    (
                        SpecExpression::UnaryOperation {
                            operator: UnaryOperator::Plus,
                            operand: Box::new(e),
                        },
                        p2,
                    ),
                ),
                Err(er) => Err(er),
            },
            SpecToken::Keyword(Keyword::Not) => match spec_parse_expression(
                toks,
                pos + 1,
                UNARY_PRECEDENCE,
            ) {
                Ok((e, p2)) => Ok(
                    (
                        SpecExpression::UnaryOperation {
                            operator: UnaryOperator::Not,
                            operand: Box::new(e),
                        },
                        p2,
                    ),
                ),
                Err(er) => Err(er),
            },
            _ => Err(SpecParseError::UnexpectedToken(toks[pos])),
        }
    }
}

/// One infix step: the operator at `pos` applied to `left` and to the
/// right-hand side parsed at the operator's own precedence, which makes
/// equal-precedence operators associate to the left.
pub open spec fn spec_parse_infix(
    toks: Seq<SpecToken>,
    pos: int,
    left: SpecExpression,
    precedence: u8,
) -> Result<(SpecExpression, int), SpecParseError>
    decreases toks.len() - pos, 1int when 0 <= pos <= toks.len()
{
    if pos >= toks.len() {
        Err(SpecParseError::UnexpectedEnd)
    } else {
        match spec_binop_of(toks[pos]) {
            None => Err(SpecParseError::UnexpectedToken(toks[pos])),
            Some(op) => match spec_parse_expression(toks, pos + 1, precedence) {
                Ok((right, p2)) => Ok(
                    (
                        SpecExpression::BinaryOperation {
                            left_operand: Box::new(left),
                            operator: op,
                            right_operand: Box::new(right),
                        },
                        p2,
                    ),
                ),
                Err(er) => Err(er),
            },
        }
    }
}

/// The climbing loop: as long as the token under the cursor is an
/// operator binding tighter than `min_prec`, fold one infix step into
/// `left`.
pub open spec fn spec_parse_infix_chain(
    toks: Seq<SpecToken>,
    pos: int,
    left: SpecExpression,
    min_prec: u8,
) -> Result<(SpecExpression, int), SpecParseError>
    decreases toks.len() - pos, 2int when 0 <= pos <= toks.len()
{
    if pos >= toks.len() {
        Ok((left, pos))
    } else {
        match spec_binop_of(toks[pos]) {
            None => Ok((left, pos)),
            Some(op) => {
                if spec_binop_precedence(op) <= min_prec {
                    Ok((left, pos))
                } else {
                    match spec_parse_infix(toks, pos, left, spec_binop_precedence(op)) {
                        Ok((node, p2)) => spec_parse_infix_chain(
                            toks,
                            bounded_next(toks.len() as int, pos, p2),
                            node,
                            min_prec,
                        ),
                        Err(er) => Err(er),
                    }
                }
            },
        }
    }
}

/// The postfix step of an expression: one optional `ASC` or `DESC`
/// ordering keyword after the climbing loop's outcome.
pub open spec fn spec_finish_expression(
    toks: Seq<SpecToken>,
    r: Result<(SpecExpression, int), SpecParseError>,
) -> Result<(SpecExpression, int), SpecParseError> {
    match r {
        Err(er) => Err(er),
        Ok((e2, p2)) => {
            if 0 <= p2 < toks.len() && toks[p2] == SpecToken::Keyword(Keyword::Asc) {
                Ok(
                    (
                        SpecExpression::UnaryOperation {
                            operator: UnaryOperator::Asc,
                            operand: Box::new(e2),
                        },
                        p2 + 1,
                    ),
                )
            } else if 0 <= p2 < toks.len() && toks[p2] == SpecToken::Keyword(Keyword::Desc) {
                Ok(
                    (
                        SpecExpression::UnaryOperation {
                            operator: UnaryOperator::Desc,
                            operand: Box::new(e2),
                        },
                        p2 + 1,
                    ),
                )
            } else {
                Ok((e2, p2))
            }
        },
    }
}

/// A full expression: a prefix term, the climbing loop, and then one
/// optional postfix `ASC` or `DESC` ordering keyword.
pub open spec fn spec_parse_expression(toks: Seq<SpecToken>, pos: int, min_prec: u8) -> Result<
    (SpecExpression, int),
    SpecParseError,
>
    decreases toks.len() - pos, 3int when 0 <= pos <= toks.len()
{
    if pos >= toks.len() {
        Err(SpecParseError::UnexpectedEnd)
    } else {
        match spec_parse_prefix(toks, pos) {
            Err(er) => Err(er),
            Ok((left, p1)) => spec_finish_expression(
                toks,
                spec_parse_infix_chain(
                    toks,
                    bounded_next(toks.len() as int, pos, p1),
                    left,
                    min_prec,
                ),
            ),
        }
    }
}

/// A comma-separated list of expressions; the loop stops the first time
/// no comma follows, so a trailing comma is not permitted.
pub open spec fn spec_parse_expression_list(toks: Seq<SpecToken>, pos: int) -> Result<
    (Seq<SpecExpression>, int),
    SpecParseError,
>
    decreases toks.len() - pos when 0 <= pos <= toks.len()
{
    if pos >= toks.len() {
        Err(SpecParseError::UnexpectedEnd)
    } else {
        match spec_parse_expression(toks, pos, 0) {
            Err(er) => Err(er),
            Ok((e, p1)) => {
                let q = bounded_next(toks.len() as int, pos, p1);
                if q < toks.len() && toks[q] == SpecToken::Comma {
                    match spec_parse_expression_list(toks, q + 1) {
                        Ok((rest, p2)) => Ok((seq![e] + rest, p2)),
                        Err(er) => Err(er),
                    }
                } else {
                    Ok((seq![e], q))
                }
            },
        }
    }
}

/// The optional `WHERE` clause.
pub open spec fn spec_parse_where(toks: Seq<SpecToken>, pos: int) -> Result<
    (Option<SpecExpression>, int),
    SpecParseError,
> {
    if 0 <= pos < toks.len() && toks[pos] == SpecToken::Keyword(Keyword::Where) {
        match spec_parse_expression(toks, pos + 1, 0) {
            Ok((e, p2)) => Ok((Some(e), p2)),
            Err(er) => Err(er),
        }
    } else {
        Ok((None, pos))
    }
}

/// The optional `ORDER BY` clause: its comma-separated sort keys, or an
/// empty sequence when the clause is absent.
pub open spec fn spec_parse_orderby(toks: Seq<SpecToken>, pos: int) -> Result<
    (Seq<SpecExpression>, int),
    SpecParseError,
> {
    if 0 <= pos < toks.len() && toks[pos] == SpecToken::Keyword(Keyword::Order) {
        match spec_expect(toks, pos + 1, SpecToken::Keyword(Keyword::By)) {
            Ok(p2) => spec_parse_expression_list(toks, p2),
            Err(er) => Err(er),
        }
    } else {
        Ok((Seq::empty(), pos))
    }
}

/// What both `SELECT` forms share after their column part: `FROM`, the
/// table name, the optional `WHERE` clause and the optional `ORDER BY`
/// clause.
pub open spec fn spec_parse_select_tail(toks: Seq<SpecToken>, pos: int) -> Result<
    ((Seq<char>, Option<SpecExpression>, Seq<SpecExpression>), int),
    SpecParseError,
> {
    match spec_expect(toks, pos, SpecToken::Keyword(Keyword::From)) {
        Err(er) => Err(er),
        Ok(p1) => match spec_parse_identifier(toks, p1) {
            Err(er) => Err(er),
            Ok((from, p2)) => match spec_parse_where(toks, p2) {
                Err(er) => Err(er),
                Ok((w, p3)) => match spec_parse_orderby(toks, p3) {
                    Err(er) => Err(er),
                    Ok((ob, p4)) => Ok(((from, w, ob), p4)),
                },
            },
        },
    }
}

/// The select rule, the leading `SELECT` keyword already consumed: the
/// `*` form, or a non-empty column list; a bare `FROM` before any column
/// is rejected.
pub open spec fn spec_parse_select(toks: Seq<SpecToken>, pos: int) -> Result<
    SpecStatement,
    SpecParseError,
> {
    if 0 <= pos < toks.len() && toks[pos] == SpecToken::Star {
        match spec_parse_select_tail(toks, pos + 1) {
            Err(er) => Err(er),
            Ok(((from, w, ob), p2)) => match spec_expect(toks, p2, SpecToken::Semicolon) {
                Err(er) => Err(er),
                Ok(_p3) => Ok(
                    SpecStatement::SelectAll { from, where_clause: w, orderby: ob },
                ),
            },
        }
    } else if 0 <= pos < toks.len() && toks[pos] == SpecToken::Keyword(Keyword::From) {
        Err(SpecParseError::UnexpectedToken(SpecToken::Keyword(Keyword::From)))
    } else {
        match spec_parse_expression_list(toks, pos) {
            Err(er) => Err(er),
            Ok((cols, p1)) => match spec_parse_select_tail(toks, p1) {
                Err(er) => Err(er),
                Ok(((from, w, ob), p2)) => match spec_expect(toks, p2, SpecToken::Semicolon) {
                    Err(er) => Err(er),
                    Ok(_p3) => Ok(
                        SpecStatement::Select {
                            columns: cols,
                            from,
                            where_clause: w,
                            orderby: ob,
                        },
                    ),
                },
            },
        }
    }
}

/// A column type: `INT`, `BOOL`, or `VARCHAR` with a length in
/// `1..=65535`; anything else in type position is its own error.
pub open spec fn spec_parse_column_type(toks: Seq<SpecToken>, pos: int) -> Result<
    (DBType, int),
    SpecParseError,
> {
    if !(0 <= pos < toks.len()) {
        Err(SpecParseError::InvalidColumnType)
    } else {
        match toks[pos] {
            SpecToken::Keyword(Keyword::Int) => Ok((DBType::Int, pos + 1)),
            SpecToken::Keyword(Keyword::Bool) => Ok((DBType::Bool, pos + 1)),
            SpecToken::Keyword(Keyword::Varchar) => match spec_expect(
                toks,
                pos + 1,
                SpecToken::LeftParentheses,
            ) {
                Err(er) => Err(er),
                Ok(p2) => {
                    if p2 < toks.len() {
                        match toks[p2] {
                            SpecToken::Number(n) => {
                                if n == 0 || n > 65535 {
                                    Err(SpecParseError::InvalidVarcharLength)
                                } else {
                                    match spec_expect(
                                        toks,
                                        p2 + 1,
                                        SpecToken::RightParentheses,
                                    ) {
                                        Err(er) => Err(er),
                                        Ok(p3) => Ok((DBType::Varchar(n as usize), p3)),
                                    }
                                }
                            },
                            _ => Err(SpecParseError::UnexpectedToken(toks[p2])),
                        }
                    } else {
                        Err(SpecParseError::UnexpectedEnd)
                    }
                },
            },
            _ => Err(SpecParseError::InvalidColumnType),
        }
    }
}

/// The constraints of one column, greedily consumed in order, stopping at
/// the first token that starts no constraint.
pub open spec fn spec_parse_constraints(toks: Seq<SpecToken>, pos: int) -> Result<
    (Seq<SpecConstraint>, int),
    SpecParseError,
>
    decreases toks.len() - pos when 0 <= pos <= toks.len()
{
    if pos >= toks.len() {
        Ok((Seq::empty(), pos))
    } else {
        match toks[pos] {
            SpecToken::Keyword(Keyword::Primary) => {
                if pos + 1 < toks.len() && toks[pos + 1] == SpecToken::Keyword(Keyword::Key) {
                    match spec_parse_constraints(toks, pos + 2) {
                        Ok((rest, p2)) => Ok((seq![SpecConstraint::PrimaryKey] + rest, p2)),
                        Err(er) => Err(er),
                    }
                } else {
                    Err(spec_err_at(toks, pos + 1))
                }
            },
            SpecToken::Keyword(Keyword::Not) => {
                if pos + 1 < toks.len() && toks[pos + 1] == SpecToken::Keyword(Keyword::Null) {
                    match spec_parse_constraints(toks, pos + 2) {
                        Ok((rest, p2)) => Ok((seq![SpecConstraint::NotNull] + rest, p2)),
                        Err(er) => Err(er),
                    }
                } else {
                    Err(spec_err_at(toks, pos + 1))
                }
            },
            SpecToken::Keyword(Keyword::Check) => {
                if pos + 1 < toks.len() && toks[pos + 1] == SpecToken::LeftParentheses {
                    match spec_parse_expression(toks, pos + 2, 0) {
                        Err(er) => Err(er),
                        Ok((e, p3)) => match spec_expect(
                            toks,
                            p3,
                            SpecToken::RightParentheses,
                        ) {
                            Err(er) => Err(er),
                            Ok(p4) => match spec_parse_constraints(
                                toks,
                                bounded_next(toks.len() as int, pos, p4),
                            ) {
                                Ok((rest, p5)) => Ok(
                                    (seq![SpecConstraint::Check(e)] + rest, p5),
                                ),
                                Err(er) => Err(er),
                            },
                        },
                    }
                } else {
                    Err(spec_err_at(toks, pos + 1))
                }
            },
            _ => Ok((Seq::empty(), pos)),
        }
    }
}

/// The comma-separated column definitions of a `CREATE TABLE`: name,
/// type, constraints each.
pub open spec fn spec_parse_column_defs(toks: Seq<SpecToken>, pos: int) -> Result<
    (Seq<SpecTableColumn>, int),
    SpecParseError,
>
    decreases toks.len() - pos when 0 <= pos <= toks.len()
{
    match spec_parse_identifier(toks, pos) {
        Err(er) => Err(er),
        Ok((name, p1)) => match spec_parse_column_type(toks, p1) {
            Err(er) => Err(er),
            Ok((ty, p2)) => match spec_parse_constraints(
                toks,
                bounded_next(toks.len() as int, pos, p2),
            ) {
                Err(er) => Err(er),
                Ok((cons, p3)) => {
                    let col = SpecTableColumn {
                        column_name: name,
                        column_type: ty,
                        constraints: cons,
                    };
                    let q = bounded_next(toks.len() as int, pos, p3);
                    if q < toks.len() && toks[q] == SpecToken::Comma {
                        match spec_parse_column_defs(toks, q + 1) {
                            Ok((rest, p4)) => Ok((seq![col] + rest, p4)),
                            Err(er) => Err(er),
                        }
                    } else {
                        Ok((seq![col], q))
                    }
                },
            },
        },
    }
}

/// The create-table rule, the leading `CREATE` keyword already consumed.
pub open spec fn spec_parse_create_table(toks: Seq<SpecToken>, pos: int) -> Result<
    SpecStatement,
    SpecParseError,
> {
    match spec_expect(toks, pos, SpecToken::Keyword(Keyword::Table)) {
        Err(er) => Err(er),
        Ok(p1) => match spec_parse_identifier(toks, p1) {
            Err(er) => Err(er),
            Ok((name, p2)) => match spec_expect(toks, p2, SpecToken::LeftParentheses) {
                Err(er) => Err(er),
                Ok(p3) => match spec_parse_column_defs(toks, p3) {
                    Err(er) => Err(er),
                    Ok((cols, p4)) => match spec_expect(
                        toks,
                        p4,
                        SpecToken::RightParentheses,
                    ) {
                        Err(er) => Err(er),
                        Ok(p5) => match spec_expect(toks, p5, SpecToken::Semicolon) {
                            Err(er) => Err(er),
                            Ok(_p6) => Ok(
                                SpecStatement::CreateTable {
                                    table_name: name,
                                    column_list: cols,
                                },
                            ),
                        },
                    },
                },
            },
        },
    }
}

/// The statement dispatch from cursor `pos`: `SELECT` or `CREATE`, each
/// handing over to its rule with the keyword consumed.
pub open spec fn spec_parse_tokens_from(toks: Seq<SpecToken>, pos: int) -> Result<
    SpecStatement,
    SpecParseError,
> {
    if !(0 <= pos < toks.len()) {
        Err(SpecParseError::UnexpectedEnd)
    } else {
        match toks[pos] {
            SpecToken::Keyword(Keyword::Select) => spec_parse_select(toks, pos + 1),
            SpecToken::Keyword(Keyword::Create) => spec_parse_create_table(toks, pos + 1),
            _ => Err(SpecParseError::UnexpectedToken(toks[pos])),
        }
    }
}

/// The statement a token sequence parses to.
pub open spec fn spec_parse_tokens(toks: Seq<SpecToken>) -> Result<
    SpecStatement,
    SpecParseError,
> {
    spec_parse_tokens_from(toks, 0)
}

/// The statement a text parses to: scan, then parse; a lexical error is
/// surfaced unchanged.
pub open spec fn spec_parse(text: Seq<char>) -> Result<SpecStatement, SpecParseError> {
    match spec_scan(text, 0) {
        Ok(toks) => spec_parse_tokens(toks),
        Err(e) => Err(SpecParseError::Lex(e)),
    }
}

/// Puts already parsed list elements in front of the outcome of parsing
/// the rest of the list.
pub open spec fn parsed_concat<T>(xs: Seq<T>, rest: Result<(Seq<T>, int), SpecParseError>) -> Result<
    (Seq<T>, int),
    SpecParseError,
> {
    match rest {
        Ok((more, p)) => Ok((xs + more, p)),
        Err(e) => Err(e),
    }
}

/// The parser. It owns the token sequence of one input text and a cursor
/// into it; a lexical error found while scanning is kept and surfaced by
/// [`Parser::parse`].
pub struct Parser {
    tokens: Vec<Token>,
    pos: usize,
    lex_error: Option<TokenizerError>,
}

impl Parser {
    /// The mathematical values of the tokens the parser works on.
    pub closed spec fn toks(&self) -> Seq<SpecToken> {
        self.tokens.deep_view()
    }

    /// The position of the parser's cursor.
    pub closed spec fn cursor(&self) -> int {
        self.pos as int
    }

    /// The scanner error kept from construction, if scanning failed.
    pub closed spec fn lex_failure(&self) -> Option<TokenizerError> {
        self.lex_error
    }

    /// The cursor never lies outside the token sequence.
    pub closed spec fn wf(&self) -> bool {
        self.pos <= self.tokens.len()
    }

    /// A parser over `input`, scanning it first. When the scanner fails,
    /// its error is kept and surfaced by [`Parser::parse`].
    pub fn new(input: &str) -> (p: Parser)
        ensures
            p.wf(),
            p.cursor() == 0,
            match spec_scan(input@, 0) {
                Ok(ts) => p.toks() == ts && p.lex_failure() is None,
                Err(e) => p.lex_failure() == Some(e),
            },
    {
        let mut tokenizer = Tokenizer::new(input);
        match tokenizer.tokenize() {
            Ok(tokens) => Parser { tokens, pos: 0, lex_error: None },
            Err(e) => Parser { tokens: Vec::new(), pos: 0, lex_error: Some(e) },
        }
    }

    /// The token under the cursor, without consuming it.
    fn current_token(&self) -> (t: Option<&Token>)
        requires
            self.wf(),
        ensures
            self.cursor() < self.toks().len() ==> (t matches Some(tok) && tok.deep_view()
                == self.toks()[self.cursor()]),
            self.cursor() >= self.toks().len() ==> t is None,
    {
        if self.pos < self.tokens.len() {
            Some(&self.tokens[self.pos])
        } else {
            None
        }
    }

    /// Moves the cursor past the current token, if one remains.
    fn advance(&mut self)
        requires
            old(self).wf(),
        ensures
            final(self).wf(),
            final(self).toks() == old(self).toks(),
            final(self).lex_failure() == old(self).lex_failure(),
            old(self).cursor() < old(self).toks().len() ==> final(self).cursor() == old(self).cursor() + 1,
            old(self).cursor() >= old(self).toks().len() ==> final(self).cursor() == old(self).cursor(),
    {
        if self.pos < self.tokens.len() {
            self.pos = self.pos + 1;
        }
    }

    /// The error for the token under the cursor: the token itself, or the
    /// end of input when none remains.
    fn error_at_current(&self) -> (e: ParseError)
        requires
            self.wf(),
        ensures
            e.deep_view() == spec_err_at(self.toks(), self.cursor()),
    {
        match self.current_token() {
            Some(t) => ParseError::UnexpectedToken(t.duplicate()),
            None => ParseError::UnexpectedEnd,
        }
    }

    /// The single "expect" primitive of the grammar: consume the current
    /// token when it equals `expected`, fail otherwise.
    fn expect_token(&mut self, expected: Token) -> (r: Result<(), ParseError>)
        requires
            old(self).wf(),
        ensures
            final(self).wf(),
            final(self).toks() == old(self).toks(),
            final(self).lex_failure() == old(self).lex_failure(),
            match r {
                Ok(_) => spec_expect(old(self).toks(), old(self).cursor(), expected.deep_view())
                    == Ok::<int, SpecParseError>(final(self).cursor()) && final(self).cursor()
                    == old(self).cursor() + 1,
                Err(e) => spec_expect(old(self).toks(), old(self).cursor(), expected.deep_view())
                    == Err::<int, SpecParseError>(e.deep_view()) && final(self).cursor() == old(self).cursor(),
            },
    {
        let found = match self.current_token() {
            Some(t) => t.matches(&expected),
            None => false,
        };
        if found {
            self.advance();
            Ok(())
        } else {
            Err(self.error_at_current())
        }
    }

    /// An identifier, such as a table or column name.
    fn parse_identifier(&mut self) -> (r: Result<String, ParseError>)
        requires
            old(self).wf(),
        ensures
            final(self).wf(),
            final(self).toks() == old(self).toks(),
            final(self).lex_failure() == old(self).lex_failure(),
            match r {
                Ok(name) => spec_parse_identifier(old(self).toks(), old(self).cursor()) == Ok::<
                    (Seq<char>, int),
                    SpecParseError,
                >((name@, final(self).cursor())) && final(self).cursor() == old(self).cursor()
                    + 1,
                Err(e) => spec_parse_identifier(old(self).toks(), old(self).cursor()) == Err::<
                    (Seq<char>, int),
                    SpecParseError,
                >(e.deep_view()) && final(self).cursor() == old(self).cursor(),
            },
    {
        let name = match self.current_token() {
            Some(Token::Identifier(ident)) => ident.clone(),
            _ => { return Err(self.error_at_current()) },
        };
        self.advance();
        Ok(name)
    }

    /// The operator precedence a token carries for the climbing loop;
    /// zero for a non-operator.
    fn get_precedence(&self, token: &Token) -> (p: u8)
        ensures
            p == spec_precedence(token.deep_view()),
    {
        match token {
            Token::Keyword(Keyword::Or) => 10,
            Token::Keyword(Keyword::And) => 20,
            Token::Equal | Token::NotEqual => 30,
            Token::GreaterThan | Token::GreaterThanOrEqual | Token::LessThan
                | Token::LessThanOrEqual => 40,
            Token::Plus | Token::Minus => 50,
            Token::Star | Token::Divide => 60,
            _ => 0,
        }
    }

    /// The binary operator a token stands for, if any.
    fn binop_of_token(&self, token: &Token) -> (r: Option<BinaryOperator>)
        ensures
            r == spec_binop_of(token.deep_view()),
    {
        match token {
            Token::Plus => Some(BinaryOperator::Plus),
            Token::Minus => Some(BinaryOperator::Minus),
            Token::Star => Some(BinaryOperator::Multiply),
            Token::Divide => Some(BinaryOperator::Divide),
            Token::Equal => Some(BinaryOperator::Equal),
            Token::NotEqual => Some(BinaryOperator::NotEqual),
            Token::GreaterThan => Some(BinaryOperator::GreaterThan),
            Token::GreaterThanOrEqual => Some(BinaryOperator::GreaterThanOrEqual),
            Token::LessThan => Some(BinaryOperator::LessThan),
            Token::LessThanOrEqual => Some(BinaryOperator::LessThanOrEqual),
            Token::Keyword(Keyword::And) => Some(BinaryOperator::And),
            Token::Keyword(Keyword::Or) => Some(BinaryOperator::Or),
            _ => None,
        }
    }

    /// A prefix term, as [`spec_parse_prefix`] describes it.
    fn parse_prefix(&mut self) -> (r: Result<Expression, ParseError>)
        requires
            old(self).wf(),
        ensures
            final(self).wf(),
            final(self).toks() == old(self).toks(),
            final(self).lex_failure() == old(self).lex_failure(),
            match r {
                Ok(e) => spec_parse_prefix(old(self).toks(), old(self).cursor()) == Ok::<
                    (SpecExpression, int),
                    SpecParseError,
                >((e.deep_view(), final(self).cursor())) && old(self).cursor() < final(self).cursor() <= old(self).toks().len(),
                Err(e) => spec_parse_prefix(old(self).toks(), old(self).cursor()) == Err::<
                    (SpecExpression, int),
                    SpecParseError,
                >(e.deep_view()),
            },
        decreases self.toks().len() - self.cursor(), 0int,
    {
        let tok = match self.current_token() {
            Some(t) => t.duplicate(),
            None => { return Err(ParseError::UnexpectedEnd) },
        };
        match tok {
            Token::Number(num) => {
                self.advance();
                Ok(Expression::Number(num))
            },
            Token::String(s) => {
                self.advance();
                Ok(Expression::String(s))
            },
            Token::Identifier(ident) => {
                self.advance();
                Ok(Expression::Identifier(ident))
            },
            Token::Keyword(Keyword::True) => {
                self.advance();
                Ok(Expression::Bool(true))
            },
            Token::Keyword(Keyword::False) => {
                self.advance();
                Ok(Expression::Bool(false))
            },
            Token::LeftParentheses => {
                self.advance();
                let expr = match self.parse_expression(0) {
                    Ok(e) => e,
                    Err(e) => { return Err(e) },
                };
                match self.expect_token(Token::RightParentheses) {
                    Ok(_) => Ok(expr),
                    Err(e) => Err(e),
                }
            },
            Token::Minus => {
                self.advance();
                match self.parse_expression(UNARY_PRECEDENCE) {
                    Ok(expr) => Ok(
                        Expression::UnaryOperation {
                            operator: UnaryOperator::Minus,
                            operand: Box::new(expr),
                        },
                    ),
                    Err(e) => Err(e),
                }
            },
            Token::Plus => {
                self.advance();
                match self.parse_expression(UNARY_PRECEDENCE) {
                    Ok(expr) => Ok(
                        Expression::UnaryOperation {
                            operator: UnaryOperator::Plus,
                            operand: Box::new(expr),
                        },
                    ),
                    Err(e) => Err(e),
                }
            },
            Token::Keyword(Keyword::Not) => {
                self.advance();
                match self.parse_expression(UNARY_PRECEDENCE) {
                    Ok(expr) => Ok(
                        Expression::UnaryOperation {
                            operator: UnaryOperator::Not,
                            operand: Box::new(expr),
                        },
                    ),
                    Err(e) => Err(e),
                }
            },
            _ => Err(ParseError::UnexpectedToken(tok)),
        }
    }

    /// One infix step, as [`spec_parse_infix`] describes it.
    fn parse_infix(&mut self, left: Expression, precedence: u8) -> (r: Result<
        Expression,
        ParseError,
    >)
        requires
            old(self).wf(),
        ensures
            final(self).wf(),
            final(self).toks() == old(self).toks(),
            final(self).lex_failure() == old(self).lex_failure(),
            match r {
                Ok(e) => spec_parse_infix(
                    old(self).toks(),
                    old(self).cursor(),
                    left.deep_view(),
                    precedence,
                ) == Ok::<(SpecExpression, int), SpecParseError>((e.deep_view(), final(self).cursor())) && old(self).cursor() < final(self).cursor() <= old(self).toks().len(),
                Err(e) => spec_parse_infix(
                    old(self).toks(),
                    old(self).cursor(),
                    left.deep_view(),
                    precedence,
                ) == Err::<(SpecExpression, int), SpecParseError>(e.deep_view()),
            },
        decreases self.toks().len() - self.cursor(), 1int,
    {
        let op = {
            let tok = match self.current_token() {
                Some(t) => t,
                None => { return Err(ParseError::UnexpectedEnd) },
            };
            match self.binop_of_token(tok) {
                Some(op) => op,
                None => { return Err(ParseError::UnexpectedToken(tok.duplicate())) },
            }
        };
        self.advance();
        match self.parse_expression(precedence) {
            Ok(right) => Ok(
                Expression::BinaryOperation {
                    left_operand: Box::new(left),
                    operator: op,
                    right_operand: Box::new(right),
                },
            ),
            Err(e) => Err(e),
        }
    }

    /// A full expression, as [`spec_parse_expression`] describes it: a
    /// prefix term, the climbing loop, one optional postfix ordering
    /// keyword.
    fn parse_expression(&mut self, precedence: u8) -> (r: Result<Expression, ParseError>)
        requires
            old(self).wf(),
        ensures
            final(self).wf(),
            final(self).toks() == old(self).toks(),
            final(self).lex_failure() == old(self).lex_failure(),
            match r {
                Ok(e) => spec_parse_expression(
                    old(self).toks(),
                    old(self).cursor(),
                    precedence,
                ) == Ok::<(SpecExpression, int), SpecParseError>((e.deep_view(), final(self).cursor())) && old(self).cursor() < final(self).cursor() <= old(self).toks().len(),
                Err(e) => spec_parse_expression(
                    old(self).toks(),
                    old(self).cursor(),
                    precedence,
                ) == Err::<(SpecExpression, int), SpecParseError>(e.deep_view()),
            },
        decreases self.toks().len() - self.cursor(), 3int,
    {
        let ghost toks = self.toks();
        let ghost pos0 = self.cursor();
        if self.pos >= self.tokens.len() {
            return Err(ParseError::UnexpectedEnd);
        }
        let mut left = match self.parse_prefix() {
            Ok(e) => e,
            Err(e) => { return Err(e) },
        };
        let ghost target = spec_parse_infix_chain(toks, self.cursor(), left.deep_view(), precedence);
        loop
            invariant
                self.wf(),
                self.toks() == toks,
                self.lex_failure() == old(self).lex_failure(),
                toks == old(self).toks(),
                pos0 == old(self).cursor(),
                pos0 < self.cursor() <= toks.len(),
                spec_parse_infix_chain(toks, self.cursor(), left.deep_view(), precedence)
                    == target,
                spec_parse_expression(toks, pos0, precedence) == spec_finish_expression(
                    toks,
                    target,
                ),
            ensures
                self.wf(),
                self.toks() == toks,
                self.lex_failure() == old(self).lex_failure(),
                pos0 < self.cursor() <= toks.len(),
                target == Ok::<(SpecExpression, int), SpecParseError>(
                    (left.deep_view(), self.cursor()),
                ),
            decreases toks.len() - self.cursor(),
        {
            let next_precedence = match self.current_token() {
                Some(t) => self.get_precedence(t),
                None => { break },
            };
            if next_precedence == 0 || next_precedence <= precedence {
                break ;
            }
            left = match self.parse_infix(left, next_precedence) {
                Ok(e) => e,
                Err(e) => { return Err(e) },
            };
        }
        let is_asc = match self.current_token() {
            Some(Token::Keyword(Keyword::Asc)) => true,
            _ => false,
        };
        if is_asc {
            self.advance();
            return Ok(
                Expression::UnaryOperation { operator: UnaryOperator::Asc, operand: Box::new(left) },
            );
        }
        let is_desc = match self.current_token() {
            Some(Token::Keyword(Keyword::Desc)) => true,
            _ => false,
        };
        if is_desc {
            self.advance();
            return Ok(
                Expression::UnaryOperation {
                    operator: UnaryOperator::Desc,
                    operand: Box::new(left),
                },
            );
        }
        Ok(left)
    }

    /// A comma-separated list of expressions, as
    /// [`spec_parse_expression_list`] describes it.
    fn parse_expression_list(&mut self) -> (r: Result<Vec<Expression>, ParseError>)
        requires
            old(self).wf(),
        ensures
            final(self).wf(),
            final(self).toks() == old(self).toks(),
            final(self).lex_failure() == old(self).lex_failure(),
            match r {
                Ok(es) => spec_parse_expression_list(old(self).toks(), old(self).cursor())
                    == Ok::<(Seq<SpecExpression>, int), SpecParseError>((es.deep_view(), final(self).cursor()))
                    && old(self).cursor() < final(self).cursor() <= old(self).toks().len(),
                Err(e) => spec_parse_expression_list(old(self).toks(), old(self).cursor())
                    == Err::<(Seq<SpecExpression>, int), SpecParseError>(e.deep_view()),
            },
    {
        let ghost toks = self.toks();
        let ghost start = self.cursor();
        let mut items: Vec<Expression> = Vec::new();
        proof {
            assert(items.deep_view() =~= Seq::<SpecExpression>::empty());
        }
        loop
            invariant_except_break
                spec_parse_expression_list(toks, start) == parsed_concat(
                    items.deep_view(),
                    spec_parse_expression_list(toks, self.cursor()),
                ),
            invariant
                self.wf(),
                self.toks() == toks,
                self.lex_failure() == old(self).lex_failure(),
                toks == old(self).toks(),
                start == old(self).cursor(),
                start <= self.cursor() <= toks.len(),
            ensures
                self.wf(),
                self.toks() == toks,
                self.lex_failure() == old(self).lex_failure(),
                start < self.cursor() <= toks.len(),
                spec_parse_expression_list(toks, start) == Ok::<
                    (Seq<SpecExpression>, int),
                    SpecParseError,
                >((items.deep_view(), self.cursor())),
            decreases toks.len() - self.cursor(),
        {
            let expr = match self.parse_expression(0) {
                Ok(e) => e,
                Err(e) => { return Err(e) },
            };
            let ghost ev = expr.deep_view();
            let ghost before = items.deep_view();
            items.push(expr);
            proof {
                assert(items.deep_view() =~= before + seq![ev]);
            }
            let has_comma = match self.current_token() {
                Some(Token::Comma) => true,
                _ => false,
            };
            if has_comma {
                self.advance();
                proof {
                    match spec_parse_expression_list(toks, self.cursor()) {
                        Ok((more, _p)) => {
                            assert(before + (seq![ev] + more) =~= items.deep_view() + more);
                        },
                        Err(_) => {},
                    }
                }
            } else {
                proof {
                    assert(before + seq![ev] =~= items.deep_view());
                }
                break ;
            }
        }
        Ok(items)
    }

    /// The optional `WHERE` clause, as [`spec_parse_where`] describes it.
    fn parse_where(&mut self) -> (r: Result<Option<Expression>, ParseError>)
        requires
            old(self).wf(),
        ensures
            final(self).wf(),
            final(self).toks() == old(self).toks(),
            final(self).lex_failure() == old(self).lex_failure(),
            match r {
                Ok(w) => spec_parse_where(old(self).toks(), old(self).cursor()) == Ok::<
                    (Option<SpecExpression>, int),
                    SpecParseError,
                >((w.deep_view(), final(self).cursor())) && old(self).cursor() <= final(self).cursor()
                    <= old(self).toks().len(),
                Err(e) => spec_parse_where(old(self).toks(), old(self).cursor()) == Err::<
                    (Option<SpecExpression>, int),
                    SpecParseError,
                >(e.deep_view()),
            },
    {
        let has_where = match self.current_token() {
            Some(Token::Keyword(Keyword::Where)) => true,
            _ => false,
        };
        if has_where {
            self.advance();
            match self.parse_expression(0) {
                Ok(e) => Ok(Some(e)),
                Err(e) => Err(e),
            }
        } else {
            Ok(None)
        }
    }

    /// The optional `ORDER BY` clause, as [`spec_parse_orderby`]
    /// describes it.
    fn parse_orderby(&mut self) -> (r: Result<Vec<Expression>, ParseError>)
        requires
            old(self).wf(),
        ensures
            final(self).wf(),
            final(self).toks() == old(self).toks(),
            final(self).lex_failure() == old(self).lex_failure(),
            match r {
                Ok(es) => spec_parse_orderby(old(self).toks(), old(self).cursor()) == Ok::<
                    (Seq<SpecExpression>, int),
                    SpecParseError,
                >((es.deep_view(), final(self).cursor())) && old(self).cursor() <= final(self).cursor()
                    <= old(self).toks().len(),
                Err(e) => spec_parse_orderby(old(self).toks(), old(self).cursor()) == Err::<
                    (Seq<SpecExpression>, int),
                    SpecParseError,
                >(e.deep_view()),
            },
    {
        let has_order = match self.current_token() {
            Some(Token::Keyword(Keyword::Order)) => true,
            _ => false,
        };
        if has_order {
            self.advance();
            match self.expect_token(Token::Keyword(Keyword::By)) {
                Ok(_) => {},
                Err(e) => { return Err(e) },
            }
            self.parse_expression_list()
        } else {
            let empty: Vec<Expression> = Vec::new();
            proof {
                assert(empty.deep_view() =~= Seq::<SpecExpression>::empty());
            }
            Ok(empty)
        }
    }

    /// What both `SELECT` forms share after their column part, as
    /// [`spec_parse_select_tail`] describes it.
    fn parse_select_tail(&mut self) -> (r: Result<
        (String, Option<Expression>, Vec<Expression>),
        ParseError,
    >)
        requires
            old(self).wf(),
        ensures
            final(self).wf(),
            final(self).toks() == old(self).toks(),
            final(self).lex_failure() == old(self).lex_failure(),
            match r {
                Ok(t) => spec_parse_select_tail(old(self).toks(), old(self).cursor()) == Ok::<
                    ((Seq<char>, Option<SpecExpression>, Seq<SpecExpression>), int),
                    SpecParseError,
                >(((t.0@, t.1.deep_view(), t.2.deep_view()), final(self).cursor())) && old(
                    self,
                ).cursor() < final(self).cursor() <= old(self).toks().len(),
                Err(e) => spec_parse_select_tail(old(self).toks(), old(self).cursor()) == Err::<
                    ((Seq<char>, Option<SpecExpression>, Seq<SpecExpression>), int),
                    SpecParseError,
                >(e.deep_view()),
            },
    {
        match self.expect_token(Token::Keyword(Keyword::From)) {
            Ok(_) => {},
            Err(e) => { return Err(e) },
        }
        let from = match self.parse_identifier() {
            Ok(name) => name,
            Err(e) => { return Err(e) },
        };
        let where_clause = match self.parse_where() {
            Ok(w) => w,
            Err(e) => { return Err(e) },
        };
        let orderby = match self.parse_orderby() {
            Ok(ob) => ob,
            Err(e) => { return Err(e) },
        };
        Ok((from, where_clause, orderby))
    }

    /// The select rule, the leading `SELECT` keyword already consumed, as
    /// [`spec_parse_select`] describes it.
    fn parse_select(&mut self) -> (r: Result<Statement, ParseError>)
        requires
            old(self).wf(),
        ensures
            final(self).wf(),
            final(self).toks() == old(self).toks(),
            final(self).lex_failure() == old(self).lex_failure(),
            match r {
                Ok(stmt) => spec_parse_select(old(self).toks(), old(self).cursor()) == Ok::<
                    SpecStatement,
                    SpecParseError,
                >(stmt.deep_view()),
                Err(e) => spec_parse_select(old(self).toks(), old(self).cursor()) == Err::<
                    SpecStatement,
                    SpecParseError,
                >(e.deep_view()),
            },
    {
        let is_star = match self.current_token() {
            Some(Token::Star) => true,
            _ => false,
        };
        if is_star {
            self.advance();
            let (from, where_clause, orderby) = match self.parse_select_tail() {
                Ok(t) => t,
                Err(e) => { return Err(e) },
            };
            match self.expect_token(Token::Semicolon) {
                Ok(_) => {},
                Err(e) => { return Err(e) },
            }
            return Ok(Statement::SelectAll { from, where_clause, orderby });
        }
        let is_from = match self.current_token() {
            Some(Token::Keyword(Keyword::From)) => true,
            _ => false,
        };
        if is_from {
            return Err(ParseError::UnexpectedToken(Token::Keyword(Keyword::From)));
        }
        let columns = match self.parse_expression_list() {
            Ok(cs) => cs,
            Err(e) => { return Err(e) },
        };
        let (from, where_clause, orderby) = match self.parse_select_tail() {
            Ok(t) => t,
            Err(e) => { return Err(e) },
        };
        match self.expect_token(Token::Semicolon) {
            Ok(_) => {},
            Err(e) => { return Err(e) },
        }
        Ok(Statement::Select { columns, from, where_clause, orderby })
    }

    /// A column type, as [`spec_parse_column_type`] describes it.
    fn parse_column_type(&mut self) -> (r: Result<DBType, ParseError>)
        requires
            old(self).wf(),
        ensures
            final(self).wf(),
            final(self).toks() == old(self).toks(),
            final(self).lex_failure() == old(self).lex_failure(),
            match r {
                Ok(ty) => spec_parse_column_type(old(self).toks(), old(self).cursor()) == Ok::<
                    (DBType, int),
                    SpecParseError,
                >((ty, final(self).cursor())) && old(self).cursor() < final(self).cursor() <= old(
                    self,
                ).toks().len(),
                Err(e) => spec_parse_column_type(old(self).toks(), old(self).cursor()) == Err::<
                    (DBType, int),
                    SpecParseError,
                >(e.deep_view()),
            },
    {
        let kind = match self.current_token() {
            Some(Token::Keyword(Keyword::Int)) => 1u8,
            Some(Token::Keyword(Keyword::Bool)) => 2u8,
            Some(Token::Keyword(Keyword::Varchar)) => 3u8,
            _ => 0u8,
        };
        if kind == 1 {
            self.advance();
            Ok(DBType::Int)
        } else if kind == 2 {
            self.advance();
            Ok(DBType::Bool)
        } else if kind == 3 {
            self.advance();
            match self.expect_token(Token::LeftParentheses) {
                Ok(_) => {},
                Err(e) => { return Err(e) },
            }
            let len_val = match self.current_token() {
                Some(Token::Number(n)) => *n,
                Some(_) => { return Err(self.error_at_current()) },
                None => { return Err(ParseError::UnexpectedEnd) },
            };
            if len_val == 0 || len_val > 65535 {
                return Err(ParseError::InvalidVarcharLength);
            }
            self.advance();
            match self.expect_token(Token::RightParentheses) {
                Ok(_) => {},
                Err(e) => { return Err(e) },
            }
            Ok(DBType::Varchar(len_val as usize))
        } else {
            Err(ParseError::InvalidColumnType)
        }
    }

    /// The constraints of one column, as [`spec_parse_constraints`]
    /// describes them.
    fn parse_constraints(&mut self) -> (r: Result<Vec<Constraint>, ParseError>)
        requires
            old(self).wf(),
        ensures
            final(self).wf(),
            final(self).toks() == old(self).toks(),
            final(self).lex_failure() == old(self).lex_failure(),
            match r {
                Ok(cs) => spec_parse_constraints(old(self).toks(), old(self).cursor()) == Ok::<
                    (Seq<SpecConstraint>, int),
                    SpecParseError,
                >((cs.deep_view(), final(self).cursor())) && old(self).cursor() <= final(self).cursor()
                    <= old(self).toks().len(),
                Err(e) => spec_parse_constraints(old(self).toks(), old(self).cursor()) == Err::<
                    (Seq<SpecConstraint>, int),
                    SpecParseError,
                >(e.deep_view()),
            },
    {
        let ghost toks = self.toks();
        let ghost start = self.cursor();
        let mut items: Vec<Constraint> = Vec::new();
        proof {
            assert(items.deep_view() =~= Seq::<SpecConstraint>::empty());
        }
        loop
            invariant_except_break
                spec_parse_constraints(toks, start) == parsed_concat(
                    items.deep_view(),
                    spec_parse_constraints(toks, self.cursor()),
                ),
            invariant
                self.wf(),
                self.toks() == toks,
                self.lex_failure() == old(self).lex_failure(),
                toks == old(self).toks(),
                start == old(self).cursor(),
                start <= self.cursor() <= toks.len(),
            ensures
                self.wf(),
                self.toks() == toks,
                self.lex_failure() == old(self).lex_failure(),
                start <= self.cursor() <= toks.len(),
                spec_parse_constraints(toks, start) == Ok::<
                    (Seq<SpecConstraint>, int),
                    SpecParseError,
                >((items.deep_view(), self.cursor())),
            decreases toks.len() - self.cursor(),
        {
            let kind = match self.current_token() {
                Some(Token::Keyword(Keyword::Primary)) => 1u8,
                Some(Token::Keyword(Keyword::Not)) => 2u8,
                Some(Token::Keyword(Keyword::Check)) => 3u8,
                _ => 0u8,
            };
            if kind == 1 {
                self.advance();
                match self.expect_token(Token::Keyword(Keyword::Key)) {
                    Ok(_) => {},
                    Err(e) => { return Err(e) },
                }
                let ghost before = items.deep_view();
                items.push(Constraint::PrimaryKey);
                proof {
                    assert(items.deep_view() =~= before + seq![SpecConstraint::PrimaryKey]);
                    match spec_parse_constraints(toks, self.cursor()) {
                        Ok((more, _p)) => {
                            assert(before + (seq![SpecConstraint::PrimaryKey] + more)
                                =~= items.deep_view() + more);
                        },
                        Err(_) => {},
                    }
                }
            } else if kind == 2 {
                self.advance();
                match self.expect_token(Token::Keyword(Keyword::Null)) {
                    Ok(_) => {},
                    Err(e) => { return Err(e) },
                }
                let ghost before = items.deep_view();
                items.push(Constraint::NotNull);
                proof {
                    assert(items.deep_view() =~= before + seq![SpecConstraint::NotNull]);
                    match spec_parse_constraints(toks, self.cursor()) {
                        Ok((more, _p)) => {
                            assert(before + (seq![SpecConstraint::NotNull] + more)
                                =~= items.deep_view() + more);
                        },
                        Err(_) => {},
                    }
                }
            } else if kind == 3 {
                self.advance();
                match self.expect_token(Token::LeftParentheses) {
                    Ok(_) => {},
                    Err(e) => { return Err(e) },
                }
                let expr = match self.parse_expression(0) {
                    Ok(e) => e,
                    Err(e) => { return Err(e) },
                };
                match self.expect_token(Token::RightParentheses) {
                    Ok(_) => {},
                    Err(e) => { return Err(e) },
                }
                let ghost ev = expr.deep_view();
                let ghost before = items.deep_view();
                items.push(Constraint::Check(expr));
                proof {
                    assert(items.deep_view() =~= before + seq![SpecConstraint::Check(ev)]);
                    match spec_parse_constraints(toks, self.cursor()) {
                        Ok((more, _p)) => {
                            assert(before + (seq![SpecConstraint::Check(ev)] + more)
                                =~= items.deep_view() + more);
                        },
                        Err(_) => {},
                    }
                }
            } else {
                proof {
                    assert(items.deep_view() + Seq::<SpecConstraint>::empty() =~= items.deep_view());
                }
                break ;
            }
        }
        Ok(items)
    }

    /// The comma-separated column definitions of a `CREATE TABLE`, as
    /// [`spec_parse_column_defs`] describes them.
    fn parse_column_defs(&mut self) -> (r: Result<Vec<TableColumn>, ParseError>)
        requires
            old(self).wf(),
        ensures
            final(self).wf(),
            final(self).toks() == old(self).toks(),
            final(self).lex_failure() == old(self).lex_failure(),
            match r {
                Ok(cols) => spec_parse_column_defs(old(self).toks(), old(self).cursor()) == Ok::<
                    (Seq<SpecTableColumn>, int),
                    SpecParseError,
                >((cols.deep_view(), final(self).cursor())) && old(self).cursor() < final(self).cursor()
                    <= old(self).toks().len(),
                Err(e) => spec_parse_column_defs(old(self).toks(), old(self).cursor()) == Err::<
                    (Seq<SpecTableColumn>, int),
                    SpecParseError,
                >(e.deep_view()),
            },
    {
        let ghost toks = self.toks();
        let ghost start = self.cursor();
        let mut items: Vec<TableColumn> = Vec::new();
        proof {
            assert(items.deep_view() =~= Seq::<SpecTableColumn>::empty());
        }
        loop
            invariant_except_break
                spec_parse_column_defs(toks, start) == parsed_concat(
                    items.deep_view(),
                    spec_parse_column_defs(toks, self.cursor()),
                ),
            invariant
                self.wf(),
                self.toks() == toks,
                self.lex_failure() == old(self).lex_failure(),
                toks == old(self).toks(),
                start == old(self).cursor(),
                start <= self.cursor() <= toks.len(),
            ensures
                self.wf(),
                self.toks() == toks,
                self.lex_failure() == old(self).lex_failure(),
                start < self.cursor() <= toks.len(),
                spec_parse_column_defs(toks, start) == Ok::<
                    (Seq<SpecTableColumn>, int),
                    SpecParseError,
                >((items.deep_view(), self.cursor())),
            decreases toks.len() - self.cursor(),
        {
            let column_name = match self.parse_identifier() {
                Ok(name) => name,
                Err(e) => { return Err(e) },
            };
            let column_type = match self.parse_column_type() {
                Ok(ty) => ty,
                Err(e) => { return Err(e) },
            };
            let constraints = match self.parse_constraints() {
                Ok(cs) => cs,
                Err(e) => { return Err(e) },
            };
            let column = TableColumn { column_name, column_type, constraints };
            let ghost cv = column.deep_view();
            let ghost before = items.deep_view();
            items.push(column);
            proof {
                assert(items.deep_view() =~= before + seq![cv]);
            }
            let has_comma = match self.current_token() {
                Some(Token::Comma) => true,
                _ => false,
            };
            if has_comma {
                self.advance();
                proof {
                    match spec_parse_column_defs(toks, self.cursor()) {
                        Ok((more, _p)) => {
                            assert(before + (seq![cv] + more) =~= items.deep_view() + more);
                        },
                        Err(_) => {},
                    }
                }
            } else {
                proof {
                    assert(before + seq![cv] =~= items.deep_view());
                }
                break ;
            }
        }
        Ok(items)
    }

    /// The create-table rule, the leading `CREATE` keyword already
    /// consumed, as [`spec_parse_create_table`] describes it.
    fn parse_create_table(&mut self) -> (r: Result<Statement, ParseError>)
        requires
            old(self).wf(),
        ensures
            final(self).wf(),
            final(self).toks() == old(self).toks(),
            final(self).lex_failure() == old(self).lex_failure(),
            match r {
                Ok(stmt) => spec_parse_create_table(old(self).toks(), old(self).cursor()) == Ok::<
                    SpecStatement,
                    SpecParseError,
                >(stmt.deep_view()),
                Err(e) => spec_parse_create_table(old(self).toks(), old(self).cursor()) == Err::<
                    SpecStatement,
                    SpecParseError,
                >(e.deep_view()),
            },
    {
        match self.expect_token(Token::Keyword(Keyword::Table)) {
            Ok(_) => {},
            Err(e) => { return Err(e) },
        }
        let table_name = match self.parse_identifier() {
            Ok(name) => name,
            Err(e) => { return Err(e) },
        };
        match self.expect_token(Token::LeftParentheses) {
            Ok(_) => {},
            Err(e) => { return Err(e) },
        }
        let column_list = match self.parse_column_defs() {
            Ok(cols) => cols,
            Err(e) => { return Err(e) },
        };
        match self.expect_token(Token::RightParentheses) {
            Ok(_) => {},
            Err(e) => { return Err(e) },
        }
        match self.expect_token(Token::Semicolon) {
            Ok(_) => {},
            Err(e) => { return Err(e) },
        }
        Ok(Statement::CreateTable { table_name, column_list })
    }

    /// Parses one statement from the cursor on: exactly what
    /// [`spec_parse_tokens_from`] describes, or the scanner's error,
    /// wrapped, when scanning had already failed.
    pub fn parse(&mut self) -> (r: Result<Statement, ParseError>)
        requires
            old(self).wf(),
        ensures
            final(self).wf(),
            match old(self).lex_failure() {
                Some(le) => match r {
                    Ok(_) => false,
                    Err(pe) => pe.deep_view() == SpecParseError::Lex(le),
                },
                None => match r {
                    Ok(stmt) => spec_parse_tokens_from(old(self).toks(), old(self).cursor())
                        == Ok::<SpecStatement, SpecParseError>(stmt.deep_view()),
                    Err(pe) => spec_parse_tokens_from(old(self).toks(), old(self).cursor())
                        == Err::<SpecStatement, SpecParseError>(pe.deep_view()),
                },
            },
    {
        if let Some(e) = self.lex_error {
            return Err(ParseError::Lex(e));
        }
        let kind = match self.current_token() {
            Some(Token::Keyword(Keyword::Select)) => 1u8,
            Some(Token::Keyword(Keyword::Create)) => 2u8,
            _ => 0u8,
        };
        if kind == 1 {
            self.advance();
            self.parse_select()
        } else if kind == 2 {
            self.advance();
            self.parse_create_table()
        } else {
            Err(self.error_at_current())
        }
    }
}

} // verus!
