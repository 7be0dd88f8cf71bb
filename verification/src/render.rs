//! Rendering a statement back to canonical text.
//!
//! A statement is first laid out as a token sequence
//! ([`render_statement_tokens`]): every composite expression is
//! parenthesized, the ordering keywords stand postfix inside their own
//! parentheses, and the text of the tokens is joined with single spaces
//! ([`tokens_text`]). String literals are quoted with `"` and a backslash
//! escapes the quote and the backslash itself, matching the scanner.
//! [`Statement::render`] returns exactly that text.

use vstd::prelude::*;

use crate::parser::{ParseError, SpecParseError};
use crate::statement::{
    BinaryOperator, Constraint, DBType, Expression, SpecConstraint, SpecExpression, SpecStatement,
    SpecTableColumn, Statement, TableColumn, UnaryOperator,
};
use crate::tokenizer::TokenizerError;
use crate::token::{chars_of, string_from_chars, Keyword, SpecToken, Token};

verus! {

/// The canonical upper-case spelling of a keyword.
pub open spec fn keyword_text(k: Keyword) -> Seq<char> {
    match k {
        Keyword::Select => "SELECT"@,
        Keyword::Create => "CREATE"@,
        Keyword::Table => "TABLE"@,
        Keyword::Where => "WHERE"@,
        Keyword::Order => "ORDER"@,
        Keyword::By => "BY"@,
        Keyword::Asc => "ASC"@,
        Keyword::Desc => "DESC"@,
        Keyword::From => "FROM"@,
        Keyword::And => "AND"@,
        Keyword::Or => "OR"@,
        Keyword::Not => "NOT"@,
        Keyword::True => "TRUE"@,
        Keyword::False => "FALSE"@,
        Keyword::Primary => "PRIMARY"@,
        Keyword::Key => "KEY"@,
        Keyword::Check => "CHECK"@,
        Keyword::Int => "INT"@,
        Keyword::Bool => "BOOL"@,
        Keyword::Varchar => "VARCHAR"@,
        Keyword::Null => "NULL"@,
    }
}

/// The character of a decimal digit value.
pub open spec fn digit_char(d: int) -> char {
    ((d + 48) as u8) as char
}

/// The decimal digits of `n`, most significant first.
pub open spec fn digits_of(n: int) -> Seq<char>
    decreases n when n >= 0
{
    if n < 10 {
        seq![digit_char(n)]
    } else {
        digits_of(n / 10) + seq![digit_char(n % 10)]
    }
}

/// The string body with the quote character and the backslash escaped by
/// a backslash; every other character stands verbatim.
pub open spec fn escape_string(s: Seq<char>) -> Seq<char>
    decreases s.len(),
{
    if s.len() == 0 {
        Seq::empty()
    } else {
        escaped_char(s[0]) + escape_string(s.drop_first())
    }
}

/// One character of a string body in rendered form.
pub open spec fn escaped_char(c: char) -> Seq<char> {
    if c == '"' || c == '\\' {
        seq!['\\', c]
    } else {
        seq![c]
    }
}

/// The text of one token.
pub open spec fn token_text(t: SpecToken) -> Seq<char> {
    match t {
        SpecToken::Keyword(k) => keyword_text(k),
        SpecToken::Identifier(s) => s,
        SpecToken::String(s) => seq!['"'] + escape_string(s) + seq!['"'],
        SpecToken::Number(n) => digits_of(n as int),
        SpecToken::Invalid(c) => seq![c],
        SpecToken::RightParentheses => ")"@,
        SpecToken::LeftParentheses => "("@,
        SpecToken::GreaterThan => ">"@,
        SpecToken::GreaterThanOrEqual => ">="@,
        SpecToken::LessThan => "<"@,
        SpecToken::LessThanOrEqual => "<="@,
        SpecToken::Equal => "="@,
        SpecToken::NotEqual => "!="@,
        SpecToken::Star => "*"@,
        SpecToken::Divide => "/"@,
        SpecToken::Minus => "-"@,
        SpecToken::Plus => "+"@,
        SpecToken::Comma => ","@,
        SpecToken::Semicolon => ";"@,
        SpecToken::Eof => Seq::empty(),
    }
}

/// The text of a token sequence: the tokens' texts joined with single
/// spaces.
pub open spec fn tokens_text(ts: Seq<SpecToken>) -> Seq<char>
    decreases ts.len(),
{
    if ts.len() == 0 {
        Seq::empty()
    } else if ts.len() == 1 {
        token_text(ts[0])
    } else {
        token_text(ts[0]) + seq![' '] + tokens_text(ts.drop_first())
    }
}

/// The token a binary operator renders to.
pub open spec fn binop_token(op: BinaryOperator) -> SpecToken {
    match op {
        BinaryOperator::Plus => SpecToken::Plus,
        BinaryOperator::Minus => SpecToken::Minus,
        BinaryOperator::Multiply => SpecToken::Star,
        BinaryOperator::Divide => SpecToken::Divide,
        BinaryOperator::Equal => SpecToken::Equal,
        BinaryOperator::NotEqual => SpecToken::NotEqual,
        BinaryOperator::GreaterThan => SpecToken::GreaterThan,
        BinaryOperator::GreaterThanOrEqual => SpecToken::GreaterThanOrEqual,
        BinaryOperator::LessThan => SpecToken::LessThan,
        BinaryOperator::LessThanOrEqual => SpecToken::LessThanOrEqual,
        BinaryOperator::And => SpecToken::Keyword(Keyword::And),
        BinaryOperator::Or => SpecToken::Keyword(Keyword::Or),
    }
}

/// The token a unary prefix operator renders to.
pub open spec fn unop_token(op: UnaryOperator) -> SpecToken {
    match op {
        UnaryOperator::Plus => SpecToken::Plus,
        UnaryOperator::Minus => SpecToken::Minus,
        UnaryOperator::Not => SpecToken::Keyword(Keyword::Not),
        UnaryOperator::Asc => SpecToken::Keyword(Keyword::Asc),
        UnaryOperator::Desc => SpecToken::Keyword(Keyword::Desc),
    }
}

/// The tokens of one expression. Every composite is parenthesized, so an
/// expression always re-parses as one prefix term; the ordering keywords
/// stand postfix inside the parentheses.
pub open spec fn render_expr_tokens(e: SpecExpression) -> Seq<SpecToken>
    decreases e,
{
    match e {
        SpecExpression::Number(n) => seq![SpecToken::Number(n)],
        SpecExpression::String(s) => seq![SpecToken::String(s)],
        SpecExpression::Bool(b) => {
            if b {
                seq![SpecToken::Keyword(Keyword::True)]
            } else {
                seq![SpecToken::Keyword(Keyword::False)]
            }
        },
        SpecExpression::Identifier(s) => seq![SpecToken::Identifier(s)],
        SpecExpression::BinaryOperation { left_operand, operator, right_operand } => {
            seq![SpecToken::LeftParentheses] + render_expr_tokens(*left_operand) + seq![
                binop_token(operator),
            ] + render_expr_tokens(*right_operand) + seq![SpecToken::RightParentheses]
        },
        SpecExpression::UnaryOperation { operator, operand } => {
            if operator == UnaryOperator::Asc || operator == UnaryOperator::Desc {
                seq![SpecToken::LeftParentheses] + render_expr_tokens(*operand) + seq![
                    unop_token(operator),
                    SpecToken::RightParentheses,
                ]
            } else {
                seq![SpecToken::LeftParentheses, unop_token(operator)] + render_expr_tokens(
                    *operand,
                ) + seq![SpecToken::RightParentheses]
            }
        },
    }
}

/// The tokens of a comma-separated expression list.
pub open spec fn render_exprs_tokens(es: Seq<SpecExpression>) -> Seq<SpecToken>
    decreases es.len(),
{
    if es.len() == 0 {
        Seq::empty()
    } else if es.len() == 1 {
        render_expr_tokens(es[0])
    } else {
        render_expr_tokens(es[0]) + seq![SpecToken::Comma] + render_exprs_tokens(es.drop_first())
    }
}

/// The tokens of one column constraint.
pub open spec fn render_constraint_tokens(c: SpecConstraint) -> Seq<SpecToken> {
    match c {
        SpecConstraint::PrimaryKey => seq![
            SpecToken::Keyword(Keyword::Primary),
            SpecToken::Keyword(Keyword::Key),
        ],
        SpecConstraint::NotNull => seq![
            SpecToken::Keyword(Keyword::Not),
            SpecToken::Keyword(Keyword::Null),
        ],
        SpecConstraint::Check(e) => seq![
            SpecToken::Keyword(Keyword::Check),
            SpecToken::LeftParentheses,
        ] + render_expr_tokens(e) + seq![SpecToken::RightParentheses],
    }
}

/// The tokens of a constraint sequence, in order.
pub open spec fn render_constraints_tokens(cs: Seq<SpecConstraint>) -> Seq<SpecToken>
    decreases cs.len(),
{
    if cs.len() == 0 {
        Seq::empty()
    } else {
        render_constraint_tokens(cs[0]) + render_constraints_tokens(cs.drop_first())
    }
}

/// The tokens of a column type.
pub open spec fn render_type_tokens(ty: DBType) -> Seq<SpecToken> {
    match ty {
        DBType::Int => seq![SpecToken::Keyword(Keyword::Int)],
        DBType::Bool => seq![SpecToken::Keyword(Keyword::Bool)],
        DBType::Varchar(n) => seq![
            SpecToken::Keyword(Keyword::Varchar),
            SpecToken::LeftParentheses,
            SpecToken::Number(n as u64),
            SpecToken::RightParentheses,
        ],
    }
}

/// The tokens of one column definition: name, type, constraints.
pub open spec fn render_column_tokens(c: SpecTableColumn) -> Seq<SpecToken> {
    seq![SpecToken::Identifier(c.column_name)] + render_type_tokens(c.column_type)
        + render_constraints_tokens(c.constraints)
}

/// The tokens of a comma-separated column-definition list.
pub open spec fn render_columns_tokens(cols: Seq<SpecTableColumn>) -> Seq<SpecToken>
    decreases cols.len(),
{
    if cols.len() == 0 {
        Seq::empty()
    } else if cols.len() == 1 {
        render_column_tokens(cols[0])
    } else {
        render_column_tokens(cols[0]) + seq![SpecToken::Comma] + render_columns_tokens(
            cols.drop_first(),
        )
    }
}

/// The tokens of the optional `WHERE` clause.
pub open spec fn render_where_tokens(w: Option<SpecExpression>) -> Seq<SpecToken> {
    match w {
        None => Seq::empty(),
        Some(e) => seq![SpecToken::Keyword(Keyword::Where)] + render_expr_tokens(e),
    }
}

/// The tokens of the optional `ORDER BY` clause.
pub open spec fn render_orderby_tokens(ob: Seq<SpecExpression>) -> Seq<SpecToken> {
    if ob.len() == 0 {
        Seq::empty()
    } else {
        seq![SpecToken::Keyword(Keyword::Order), SpecToken::Keyword(Keyword::By)]
            + render_exprs_tokens(ob)
    }
}

/// The tokens of one whole statement, terminating semicolon included.
pub open spec fn render_statement_tokens(s: SpecStatement) -> Seq<SpecToken> {
    match s {
        SpecStatement::Select { columns, from, where_clause, orderby } => {
            seq![SpecToken::Keyword(Keyword::Select)] + render_exprs_tokens(columns) + seq![
                SpecToken::Keyword(Keyword::From),
                SpecToken::Identifier(from),
            ] + render_where_tokens(where_clause) + render_orderby_tokens(orderby) + seq![
                SpecToken::Semicolon,
            ]
        },
        SpecStatement::SelectAll { from, where_clause, orderby } => {
            seq![
                SpecToken::Keyword(Keyword::Select),
                SpecToken::Star,
                SpecToken::Keyword(Keyword::From),
                SpecToken::Identifier(from),
            ] + render_where_tokens(where_clause) + render_orderby_tokens(orderby) + seq![
                SpecToken::Semicolon,
            ]
        },
        SpecStatement::CreateTable { table_name, column_list } => {
            seq![
                SpecToken::Keyword(Keyword::Create),
                SpecToken::Keyword(Keyword::Table),
                SpecToken::Identifier(table_name),
                SpecToken::LeftParentheses,
            ] + render_columns_tokens(column_list) + seq![
                SpecToken::RightParentheses,
                SpecToken::Semicolon,
            ]
        },
    }
}

/// The canonical text of an expression.
pub open spec fn spec_render_expression(e: SpecExpression) -> Seq<char> {
    tokens_text(render_expr_tokens(e))
}

/// The canonical text of a statement.
pub open spec fn spec_render_statement(s: SpecStatement) -> Seq<char> {
    tokens_text(render_statement_tokens(s))
}

/// Splitting off the last token of a sequence splits its text before the
/// last token's text, with a space between when anything precedes it.
pub proof fn lemma_tokens_text_snoc(ts: Seq<SpecToken>, t: SpecToken)
    ensures
        ts.len() == 0 ==> tokens_text(ts + seq![t]) == token_text(t),
        ts.len() > 0 ==> tokens_text(ts + seq![t]) == tokens_text(ts) + seq![' '] + token_text(t),
    decreases ts.len(),
{
    let whole = ts + seq![t];
    if ts.len() == 0 {
        assert(whole =~= seq![t]);
        assert(tokens_text(whole) == token_text(t));
    } else {
        assert(whole.len() >= 2);
        assert(whole[0] == ts[0]);
        assert(whole.drop_first() =~= ts.drop_first() + seq![t]);
        lemma_tokens_text_snoc(ts.drop_first(), t);
        if ts.len() == 1 {
            assert(ts.drop_first().len() == 0);
            assert(tokens_text(whole) == token_text(ts[0]) + seq![' '] + token_text(t));
            assert(tokens_text(ts) == token_text(ts[0]));
        } else {
            assert(tokens_text(whole) == token_text(ts[0]) + seq![' '] + (tokens_text(
                ts.drop_first(),
            ) + seq![' '] + token_text(t)));
            assert(tokens_text(ts) == token_text(ts[0]) + seq![' '] + tokens_text(
                ts.drop_first(),
            ));
            assert(token_text(ts[0]) + seq![' '] + (tokens_text(ts.drop_first()) + seq![' ']
                + token_text(t)) =~= (token_text(ts[0]) + seq![' '] + tokens_text(
                ts.drop_first(),
            )) + seq![' '] + token_text(t));
        }
    }
}

/// Extending the string body by one character extends its rendered form
/// by that character's rendering.
pub proof fn lemma_escape_string_snoc(s: Seq<char>, c: char)
    ensures
        escape_string(s + seq![c]) == escape_string(s) + escaped_char(c),
    decreases s.len(),
{
    let whole = s + seq![c];
    if s.len() == 0 {
        assert(whole =~= seq![c]);
        assert(whole.drop_first() =~= Seq::<char>::empty());
        assert(escape_string(whole.drop_first()) == Seq::<char>::empty());
        assert(escape_string(whole) == escaped_char(whole[0]) + escape_string(whole.drop_first()));
        assert(escaped_char(c) + Seq::<char>::empty() =~= escaped_char(c));
        assert(escape_string(s) + escaped_char(c) =~= escaped_char(c));
    } else {
        assert(whole[0] == s[0]);
        assert(whole.drop_first() =~= s.drop_first() + seq![c]);
        lemma_escape_string_snoc(s.drop_first(), c);
        assert(escaped_char(s[0]) + (escape_string(s.drop_first()) + escaped_char(c)) =~= (
        escaped_char(s[0]) + escape_string(s.drop_first())) + escaped_char(c));
    }
}

/// Appends the characters of `s`.
fn push_str(v: &mut Vec<char>, s: &str)
    ensures
        final(v)@ == old(v)@ + s@,
{
    let cs = chars_of(s);
    let mut i: usize = 0;
    proof {
        assert(v@ =~= old(v)@ + s@.take(0));
    }
    while i < cs.len()
        invariant
            i <= cs.len(),
            cs@ == s@,
            v@ == old(v)@ + s@.take(i as int),
        decreases cs.len() - i,
    {
        v.push(cs[i]);
        i = i + 1;
        proof {
            assert(v@ =~= old(v)@ + s@.take(i as int));
        }
    }
    proof {
        assert(s@.take(s@.len() as int) =~= s@);
    }
}

/// Appends the decimal digits of `n`, most significant first.
fn push_digits(v: &mut Vec<char>, n: u64)
    ensures
        final(v)@ == old(v)@ + digits_of(n as int),
    decreases n,
{
    if n < 10 {
        let c = ((n as u8) + 48) as char;
        v.push(c);
        proof {
            assert(c == digit_char(n as int));
            assert(v@ =~= old(v)@ + digits_of(n as int));
        }
    } else {
        push_digits(v, n / 10);
        let c = (((n % 10) as u8) + 48) as char;
        v.push(c);
        proof {
            assert(c == digit_char((n % 10) as int));
            assert((old(v)@ + digits_of((n / 10) as int)) + seq![digit_char((n % 10) as int)]
                =~= old(v)@ + digits_of(n as int));
        }
    }
}

/// Appends the text of one token.
fn push_token_text(v: &mut Vec<char>, t: &Token)
    ensures
        final(v)@ == old(v)@ + token_text(t.deep_view()),
{
    match t {
        Token::Keyword(k) => {
            match k {
                Keyword::Select => push_str(v, "SELECT"),
                Keyword::Create => push_str(v, "CREATE"),
                Keyword::Table => push_str(v, "TABLE"),
                Keyword::Where => push_str(v, "WHERE"),
                Keyword::Order => push_str(v, "ORDER"),
                Keyword::By => push_str(v, "BY"),
                Keyword::Asc => push_str(v, "ASC"),
                Keyword::Desc => push_str(v, "DESC"),
                Keyword::From => push_str(v, "FROM"),
                Keyword::And => push_str(v, "AND"),
                Keyword::Or => push_str(v, "OR"),
                Keyword::Not => push_str(v, "NOT"),
                Keyword::True => push_str(v, "TRUE"),
                Keyword::False => push_str(v, "FALSE"),
                Keyword::Primary => push_str(v, "PRIMARY"),
                Keyword::Key => push_str(v, "KEY"),
                Keyword::Check => push_str(v, "CHECK"),
                Keyword::Int => push_str(v, "INT"),
                Keyword::Bool => push_str(v, "BOOL"),
                Keyword::Varchar => push_str(v, "VARCHAR"),
                Keyword::Null => push_str(v, "NULL"),
            }
        },
        Token::Identifier(s) => push_str(v, s.as_str()),
        Token::String(s) => {
            v.push('"');
            proof {
                assert(v@ =~= old(v)@ + seq!['"'] + escape_string(s@.take(0)));
            }
            let cs = chars_of(s.as_str());
            let mut i: usize = 0;
            while i < cs.len()
                invariant
                    i <= cs.len(),
                    cs@ == s@,
                    v@ == old(v)@ + seq!['"'] + escape_string(s@.take(i as int)),
                decreases cs.len() - i,
            {
                let c = cs[i];
                if c == '"' || c == '\\' {
                    v.push('\\');
                }
                v.push(c);
                i = i + 1;
                proof {
                    lemma_escape_string_snoc(s@.take(i - 1), s@[i - 1]);
                    assert(s@.take(i - 1) + seq![s@[i - 1]] =~= s@.take(i as int));
                    assert(v@ =~= old(v)@ + seq!['"'] + escape_string(s@.take(i as int)));
                }
            }
            v.push('"');
            proof {
                assert(s@.take(s@.len() as int) =~= s@);
                assert(v@ =~= old(v)@ + (seq!['"'] + escape_string(s@) + seq!['"']));
            }
        },
        Token::Number(n) => push_digits(v, *n),
        Token::Invalid(c) => {
            v.push(*c);
            proof {
                assert(v@ =~= old(v)@ + seq![*c]);
            }
        },
        Token::RightParentheses => push_str(v, ")"),
        Token::LeftParentheses => push_str(v, "("),
        Token::GreaterThan => push_str(v, ">"),
        Token::GreaterThanOrEqual => push_str(v, ">="),
        Token::LessThan => push_str(v, "<"),
        Token::LessThanOrEqual => push_str(v, "<="),
        Token::Equal => push_str(v, "="),
        Token::NotEqual => push_str(v, "!="),
        Token::Star => push_str(v, "*"),
        Token::Divide => push_str(v, "/"),
        Token::Minus => push_str(v, "-"),
        Token::Plus => push_str(v, "+"),
        Token::Comma => push_str(v, ","),
        Token::Semicolon => push_str(v, ";"),
        Token::Eof => {
            proof {
                assert(v@ =~= old(v)@ + Seq::<char>::empty());
            }
        },
    }
}

/// The text of a token sequence, executably: the tokens' texts joined
/// with single spaces.
fn tokens_to_text(ts: &Vec<Token>) -> (v: Vec<char>)
    ensures
        v@ == tokens_text(ts.deep_view()),
{
    let mut v: Vec<char> = Vec::new();
    let mut i: usize = 0;
    proof {
        assert(ts.deep_view().take(0) =~= Seq::<SpecToken>::empty());
        assert(v@ =~= tokens_text(ts.deep_view().take(0)));
    }
    while i < ts.len()
        invariant
            i <= ts.len(),
            v@ == tokens_text(ts.deep_view().take(i as int)),
        decreases ts.len() - i,
    {
        if i > 0 {
            v.push(' ');
        }
        push_token_text(&mut v, &ts[i]);
        i = i + 1;
        proof {
            let tsv = ts.deep_view();
            lemma_tokens_text_snoc(tsv.take(i - 1), tsv[i - 1]);
            assert(tsv.take(i - 1) + seq![tsv[i - 1]] =~= tsv.take(i as int));
            if i == 1 {
                assert(Seq::<char>::empty() + token_text(tsv[0]) =~= token_text(tsv[0]));
                assert(v@ =~= tokens_text(tsv.take(i as int)));
            } else {
                assert(v@ =~= tokens_text(tsv.take(i as int)));
            }
        }
    }
    proof {
        assert(ts.deep_view().take(ts.len() as int) =~= ts.deep_view());
    }
    v
}

/// Appends one token, relating the vector's value to its old one.
fn push_tok(out: &mut Vec<Token>, t: Token)
    ensures
        final(out).deep_view() == old(out).deep_view() + seq![t.deep_view()],
{
    let ghost tv = t.deep_view();
    let ghost before = out.deep_view();
    out.push(t);
    proof {
        assert(out.deep_view() =~= before + seq![tv]);
    }
}

/// The token a binary operator renders to, executably.
fn token_of_binop(op: BinaryOperator) -> (t: Token)
    ensures
        t.deep_view() == binop_token(op),
{
    match op {
        BinaryOperator::Plus => Token::Plus,
        BinaryOperator::Minus => Token::Minus,
        BinaryOperator::Multiply => Token::Star,
        BinaryOperator::Divide => Token::Divide,
        BinaryOperator::Equal => Token::Equal,
        BinaryOperator::NotEqual => Token::NotEqual,
        BinaryOperator::GreaterThan => Token::GreaterThan,
        BinaryOperator::GreaterThanOrEqual => Token::GreaterThanOrEqual,
        BinaryOperator::LessThan => Token::LessThan,
        BinaryOperator::LessThanOrEqual => Token::LessThanOrEqual,
        BinaryOperator::And => Token::Keyword(Keyword::And),
        BinaryOperator::Or => Token::Keyword(Keyword::Or),
    }
}

/// The token a unary operator renders to, executably.
fn token_of_unop(op: UnaryOperator) -> (t: Token)
    ensures
        t.deep_view() == unop_token(op),
{
    match op {
        UnaryOperator::Plus => Token::Plus,
        UnaryOperator::Minus => Token::Minus,
        UnaryOperator::Not => Token::Keyword(Keyword::Not),
        UnaryOperator::Asc => Token::Keyword(Keyword::Asc),
        UnaryOperator::Desc => Token::Keyword(Keyword::Desc),
    }
}

/// Appends the tokens of one expression.
fn push_expr_tokens(e: &Expression, out: &mut Vec<Token>)
    ensures
        final(out).deep_view() == old(out).deep_view() + render_expr_tokens(e.deep_view()),
    decreases e,
{
    match e {
        Expression::Number(n) => {
            push_tok(out, Token::Number(*n));
            proof {
                assert(out.deep_view() =~= old(out).deep_view() + render_expr_tokens(
                    e.deep_view(),
                ));
            }
        },
        Expression::String(s) => {
            push_tok(out, Token::String(s.clone()));
            proof {
                assert(out.deep_view() =~= old(out).deep_view() + render_expr_tokens(
                    e.deep_view(),
                ));
            }
        },
        Expression::Bool(b) => {
            if *b {
                push_tok(out, Token::Keyword(Keyword::True));
            } else {
                push_tok(out, Token::Keyword(Keyword::False));
            }
            proof {
                assert(out.deep_view() =~= old(out).deep_view() + render_expr_tokens(
                    e.deep_view(),
                ));
            }
        },
        Expression::Identifier(s) => {
            push_tok(out, Token::Identifier(s.clone()));
            proof {
                assert(out.deep_view() =~= old(out).deep_view() + render_expr_tokens(
                    e.deep_view(),
                ));
            }
        },
        Expression::BinaryOperation { left_operand, operator, right_operand } => {
            push_tok(out, Token::LeftParentheses);
            push_expr_tokens(&**left_operand, out);
            push_tok(out, token_of_binop(*operator));
            push_expr_tokens(&**right_operand, out);
            push_tok(out, Token::RightParentheses);
            proof {
                assert(out.deep_view() =~= old(out).deep_view() + render_expr_tokens(
                    e.deep_view(),
                ));
            }
        },
        Expression::UnaryOperation { operator, operand } => {
            let is_ordering = match operator {
                UnaryOperator::Asc => true,
                UnaryOperator::Desc => true,
                _ => false,
            };
            push_tok(out, Token::LeftParentheses);
            if is_ordering {
                push_expr_tokens(&**operand, out);
                push_tok(out, token_of_unop(*operator));
                push_tok(out, Token::RightParentheses);
            } else {
                push_tok(out, token_of_unop(*operator));
                push_expr_tokens(&**operand, out);
                push_tok(out, Token::RightParentheses);
            }
            proof {
                assert(out.deep_view() =~= old(out).deep_view() + render_expr_tokens(
                    e.deep_view(),
                ));
            }
        },
    }
}

/// Appends the tokens of the expression list from index `i` on, comma
/// separated.
fn push_exprs_tokens_from(es: &Vec<Expression>, i: usize, out: &mut Vec<Token>)
    requires
        i <= es.len(),
    ensures
        final(out).deep_view() == old(out).deep_view() + render_exprs_tokens(es.deep_view().skip(i as int)),
    decreases es.len() - i,
{
    let ghost tail = es.deep_view().skip(i as int);
    if i >= es.len() {
        proof {
            assert(tail =~= Seq::<SpecExpression>::empty());
            assert(out.deep_view() =~= old(out).deep_view() + render_exprs_tokens(tail));
        }
    } else {
        push_expr_tokens(&es[i], out);
        proof {
            assert(tail[0] == es.deep_view()[i as int]);
        }
        if i + 1 < es.len() {
            push_tok(out, Token::Comma);
            push_exprs_tokens_from(es, i + 1, out);
            proof {
                assert(tail.drop_first() =~= es.deep_view().skip(i as int + 1));
                assert(out.deep_view() =~= old(out).deep_view() + render_exprs_tokens(tail));
            }
        } else {
            proof {
                assert(tail.len() == 1);
                assert(out.deep_view() =~= old(out).deep_view() + render_exprs_tokens(tail));
            }
        }
    }
}

/// Appends the tokens of one constraint.
fn push_constraint_tokens(c: &Constraint, out: &mut Vec<Token>)
    ensures
        final(out).deep_view() == old(out).deep_view() + render_constraint_tokens(c.deep_view()),
{
    match c {
        Constraint::PrimaryKey => {
            push_tok(out, Token::Keyword(Keyword::Primary));
            push_tok(out, Token::Keyword(Keyword::Key));
            proof {
                assert(out.deep_view() =~= old(out).deep_view() + render_constraint_tokens(
                    c.deep_view(),
                ));
            }
        },
        Constraint::NotNull => {
            push_tok(out, Token::Keyword(Keyword::Not));
            push_tok(out, Token::Keyword(Keyword::Null));
            proof {
                assert(out.deep_view() =~= old(out).deep_view() + render_constraint_tokens(
                    c.deep_view(),
                ));
            }
        },
        Constraint::Check(e) => {
            push_tok(out, Token::Keyword(Keyword::Check));
            push_tok(out, Token::LeftParentheses);
            push_expr_tokens(e, out);
            push_tok(out, Token::RightParentheses);
            proof {
                assert(out.deep_view() =~= old(out).deep_view() + render_constraint_tokens(
                    c.deep_view(),
                ));
            }
        },
    }
}

/// Appends the tokens of the constraints from index `i` on.
fn push_constraints_tokens_from(cs: &Vec<Constraint>, i: usize, out: &mut Vec<Token>)
    requires
        i <= cs.len(),
    ensures
        final(out).deep_view() == old(out).deep_view() + render_constraints_tokens(
            cs.deep_view().skip(i as int),
        ),
    decreases cs.len() - i,
{
    let ghost tail = cs.deep_view().skip(i as int);
    if i >= cs.len() {
        proof {
            assert(tail =~= Seq::<SpecConstraint>::empty());
            assert(out.deep_view() =~= old(out).deep_view() + render_constraints_tokens(tail));
        }
    } else {
        push_constraint_tokens(&cs[i], out);
        push_constraints_tokens_from(cs, i + 1, out);
        proof {
            assert(tail[0] == cs.deep_view()[i as int]);
            assert(tail.drop_first() =~= cs.deep_view().skip(i as int + 1));
            assert(out.deep_view() =~= old(out).deep_view() + render_constraints_tokens(tail));
        }
    }
}

/// Appends the tokens of a column type.
fn push_type_tokens(ty: DBType, out: &mut Vec<Token>)
    ensures
        final(out).deep_view() == old(out).deep_view() + render_type_tokens(ty),
{
    match ty {
        DBType::Int => {
            push_tok(out, Token::Keyword(Keyword::Int));
            proof {
                assert(out.deep_view() =~= old(out).deep_view() + render_type_tokens(ty));
            }
        },
        DBType::Bool => {
            push_tok(out, Token::Keyword(Keyword::Bool));
            proof {
                assert(out.deep_view() =~= old(out).deep_view() + render_type_tokens(ty));
            }
        },
        DBType::Varchar(n) => {
            push_tok(out, Token::Keyword(Keyword::Varchar));
            push_tok(out, Token::LeftParentheses);
            push_tok(out, Token::Number(n as u64));
            push_tok(out, Token::RightParentheses);
            proof {
                assert(out.deep_view() =~= old(out).deep_view() + render_type_tokens(ty));
            }
        },
    }
}

/// Appends the tokens of one column definition.
fn push_column_tokens(c: &TableColumn, out: &mut Vec<Token>)
    ensures
        final(out).deep_view() == old(out).deep_view() + render_column_tokens(c.deep_view()),
{
    push_tok(out, Token::Identifier(c.column_name.clone()));
    push_type_tokens(c.column_type, out);
    push_constraints_tokens_from(&c.constraints, 0, out);
    proof {
        assert(c.constraints.deep_view().skip(0) =~= c.constraints.deep_view());
        assert(out.deep_view() =~= old(out).deep_view() + render_column_tokens(c.deep_view()));
    }
}

/// Appends the tokens of the column definitions from index `i` on, comma
/// separated.
fn push_columns_tokens_from(cols: &Vec<TableColumn>, i: usize, out: &mut Vec<Token>)
    requires
        i <= cols.len(),
    ensures
        final(out).deep_view() == old(out).deep_view() + render_columns_tokens(
            cols.deep_view().skip(i as int),
        ),
    decreases cols.len() - i,
{
    let ghost tail = cols.deep_view().skip(i as int);
    if i >= cols.len() {
        proof {
            assert(tail =~= Seq::<SpecTableColumn>::empty());
            assert(out.deep_view() =~= old(out).deep_view() + render_columns_tokens(tail));
        }
    } else {
        push_column_tokens(&cols[i], out);
        proof {
            assert(tail[0] == cols.deep_view()[i as int]);
        }
        if i + 1 < cols.len() {
            push_tok(out, Token::Comma);
            push_columns_tokens_from(cols, i + 1, out);
            proof {
                assert(tail.drop_first() =~= cols.deep_view().skip(i as int + 1));
                assert(out.deep_view() =~= old(out).deep_view() + render_columns_tokens(tail));
            }
        } else {
            proof {
                assert(tail.len() == 1);
                assert(out.deep_view() =~= old(out).deep_view() + render_columns_tokens(tail));
            }
        }
    }
}

/// Appends the tokens of the optional `WHERE` clause.
fn push_where_tokens(w: &Option<Expression>, out: &mut Vec<Token>)
    ensures
        final(out).deep_view() == old(out).deep_view() + render_where_tokens(w.deep_view()),
{
    match w {
        None => {
            proof {
                assert(out.deep_view() =~= old(out).deep_view() + render_where_tokens(
                    w.deep_view(),
                ));
            }
        },
        Some(e) => {
            push_tok(out, Token::Keyword(Keyword::Where));
            push_expr_tokens(e, out);
            proof {
                assert(out.deep_view() =~= old(out).deep_view() + render_where_tokens(
                    w.deep_view(),
                ));
            }
        },
    }
}

/// Appends the tokens of the optional `ORDER BY` clause.
fn push_orderby_tokens(ob: &Vec<Expression>, out: &mut Vec<Token>)
    ensures
        final(out).deep_view() == old(out).deep_view() + render_orderby_tokens(ob.deep_view()),
{
    if ob.len() == 0 {
        proof {
            assert(out.deep_view() =~= old(out).deep_view() + render_orderby_tokens(
                ob.deep_view(),
            ));
        }
    } else {
        push_tok(out, Token::Keyword(Keyword::Order));
        push_tok(out, Token::Keyword(Keyword::By));
        push_exprs_tokens_from(ob, 0, out);
        proof {
            assert(ob.deep_view().skip(0) =~= ob.deep_view());
            assert(out.deep_view() =~= old(out).deep_view() + render_orderby_tokens(
                ob.deep_view(),
            ));
        }
    }
}

/// The tokens of one whole statement.
fn statement_tokens(s: &Statement) -> (out: Vec<Token>)
    ensures
        out.deep_view() == render_statement_tokens(s.deep_view()),
{
    let mut out: Vec<Token> = Vec::new();
    proof {
        assert(out.deep_view() =~= Seq::<SpecToken>::empty());
    }
    match s {
        Statement::Select { columns, from, where_clause, orderby } => {
            push_tok(&mut out, Token::Keyword(Keyword::Select));
            push_exprs_tokens_from(columns, 0, &mut out);
            push_tok(&mut out, Token::Keyword(Keyword::From));
            push_tok(&mut out, Token::Identifier(from.clone()));
            push_where_tokens(where_clause, &mut out);
            push_orderby_tokens(orderby, &mut out);
            push_tok(&mut out, Token::Semicolon);
            proof {
                assert(columns.deep_view().skip(0) =~= columns.deep_view());
                assert(out.deep_view() =~= render_statement_tokens(s.deep_view()));
            }
        },
        Statement::SelectAll { from, where_clause, orderby } => {
            push_tok(&mut out, Token::Keyword(Keyword::Select));
            push_tok(&mut out, Token::Star);
            push_tok(&mut out, Token::Keyword(Keyword::From));
            push_tok(&mut out, Token::Identifier(from.clone()));
            push_where_tokens(where_clause, &mut out);
            push_orderby_tokens(orderby, &mut out);
            push_tok(&mut out, Token::Semicolon);
            proof {
                assert(out.deep_view() =~= render_statement_tokens(s.deep_view()));
            }
        },
        Statement::CreateTable { table_name, column_list } => {
            push_tok(&mut out, Token::Keyword(Keyword::Create));
            push_tok(&mut out, Token::Keyword(Keyword::Table));
            push_tok(&mut out, Token::Identifier(table_name.clone()));
            push_tok(&mut out, Token::LeftParentheses);
            push_columns_tokens_from(column_list, 0, &mut out);
            push_tok(&mut out, Token::RightParentheses);
            push_tok(&mut out, Token::Semicolon);
            proof {
                assert(column_list.deep_view().skip(0) =~= column_list.deep_view());
                assert(out.deep_view() =~= render_statement_tokens(s.deep_view()));
            }
        },
    }
    out
}

impl Statement {
    /// The canonical text of the statement: keywords upper case, every
    /// composite expression parenthesized, tokens separated by single
    /// spaces, and a terminating semicolon. Re-parsing this text yields a
    /// statement of the same mathematical value.
    pub fn render(&self) -> (r: String)
        ensures
            r@ == spec_render_statement(self.deep_view()),
    {
        let toks = statement_tokens(self);
        let text = tokens_to_text(&toks);
        string_from_chars(&text)
    }
}

impl Expression {
    /// The canonical text of the expression, in the same form that
    /// [`Statement::render`] uses.
    pub fn render(&self) -> (r: String)
        ensures
            r@ == spec_render_expression(self.deep_view()),
    {
        let mut toks: Vec<Token> = Vec::new();
        proof {
            assert(toks.deep_view() =~= Seq::<SpecToken>::empty());
        }
        push_expr_tokens(self, &mut toks);
        proof {
            assert(toks.deep_view() =~= render_expr_tokens(self.deep_view()));
        }
        let text = tokens_to_text(&toks);
        string_from_chars(&text)
    }
}

/// The human-readable message for a scanner error.
pub open spec fn spec_describe_lex_error(e: TokenizerError) -> Seq<char> {
    match e {
        TokenizerError::UnterminatedString => "Unterminated string literal"@,
        TokenizerError::UnexpectedChar(c) => "Unexpected character: "@ + seq![c],
        TokenizerError::InvalidNumber => "Number too large"@,
    }
}

/// The human-readable message for a parser error.
pub open spec fn spec_describe_parse_error(e: SpecParseError) -> Seq<char> {
    match e {
        SpecParseError::UnexpectedToken(t) => "Unexpected token: "@ + token_text(t),
        SpecParseError::UnexpectedEnd => "Unexpected end of input"@,
        SpecParseError::InvalidVarcharLength => "Invalid VARCHAR length"@,
        SpecParseError::InvalidColumnType => "Invalid column type"@,
        SpecParseError::Lex(le) => spec_describe_lex_error(le),
    }
}

impl TokenizerError {
    /// The human-readable message for the error.
    pub fn describe(&self) -> (r: String)
        ensures
            r@ == spec_describe_lex_error(*self),
    {
        match self {
            TokenizerError::UnterminatedString => "Unterminated string literal".to_owned(),
            TokenizerError::UnexpectedChar(c) => {
                let mut text: Vec<char> = Vec::new();
                push_str(&mut text, "Unexpected character: ");
                text.push(*c);
                proof {
                    assert(text@ =~= "Unexpected character: "@ + seq![*c]);
                }
                string_from_chars(&text)
            },
            TokenizerError::InvalidNumber => "Number too large".to_owned(),
        }
    }
}

impl ParseError {
    /// The human-readable message for the error.
    pub fn describe(&self) -> (r: String)
        ensures
            r@ == spec_describe_parse_error(self.deep_view()),
    {
        match self {
            ParseError::UnexpectedToken(t) => {
                let mut text: Vec<char> = Vec::new();
                push_str(&mut text, "Unexpected token: ");
                push_token_text(&mut text, t);
                string_from_chars(&text)
            },
            ParseError::UnexpectedEnd => "Unexpected end of input".to_owned(),
            ParseError::InvalidVarcharLength => "Invalid VARCHAR length".to_owned(),
            ParseError::InvalidColumnType => "Invalid column type".to_owned(),
            ParseError::Lex(le) => le.describe(),
        }
    }
}

} // verus!
