//! The crate's laws: proved statements that relate the scanner, the
//! parser and the renderer to one another.

use vstd::prelude::*;

use crate::parser::{
    bounded_next, spec_binop_of, spec_binop_precedence, spec_expect, spec_parse,
    spec_parse_column_defs, spec_parse_column_type, spec_parse_constraints,
    spec_parse_expression, spec_parse_expression_list,
    spec_parse_identifier, spec_parse_infix, spec_parse_infix_chain, spec_parse_orderby,
    spec_parse_prefix, spec_parse_select_tail, spec_parse_tokens,
    spec_parse_where, SpecParseError, UNARY_PRECEDENCE,
};
use crate::render::{
    binop_token, digit_char, digits_of, escape_string, escaped_char, keyword_text,
    render_column_tokens, render_columns_tokens, render_constraint_tokens,
    render_constraints_tokens, render_expr_tokens, render_exprs_tokens, render_orderby_tokens,
    render_statement_tokens, render_type_tokens, render_where_tokens, spec_render_statement,
    token_text, tokens_text, unop_token,
};
use crate::statement::{
    wf_column, wf_constraint, wf_expression, wf_expressions, wf_ident, wf_opt_expression,
    wf_statement, DBType, SpecConstraint, SpecExpression, SpecStatement, SpecTableColumn,
    UnaryOperator,
};
use crate::token::{
    fold_chars, is_digit_char, is_ident_char, is_ident_start_char, is_space_char,
    spec_keyword_of, Keyword, SpecToken,
};
use crate::tokenizer::{
    digit_run_end, digit_val, digits_val, ident_run_end, lemma_digit_run_end,
    lemma_digit_run_end_step, lemma_ident_run_end, lemma_ident_run_end_step,
    lemma_scan_string_bounds, scan_cons, scan_string, spec_scan, TokenizerError,
};

verus! {

/// A successful scan ends with exactly one end marker: the last token is
/// it, and no token before the last is.
pub proof fn lemma_scan_ends_with_eof(s: Seq<char>, i: int, toks: Seq<SpecToken>)
    requires
        0 <= i <= s.len(),
        spec_scan(s, i) == Ok::<Seq<SpecToken>, TokenizerError>(toks),
    ensures
        toks.len() >= 1,
        toks[toks.len() - 1] == SpecToken::Eof,
        forall|k: int| 0 <= k < toks.len() - 1 ==> toks[k] != SpecToken::Eof,
    decreases s.len() - i, 0int,
{
    if i >= s.len() {
        assert(toks == seq![SpecToken::Eof]);
    } else {
        let c = s[i];
        if is_space_char(c) {
            lemma_scan_ends_with_eof(s, i + 1, toks);
        } else if c == '(' || c == ')' || c == ',' || c == ';' || c == '+' || c == '-' || c == '*'
            || c == '/' || c == '=' {
            let t: SpecToken = if c == '(' {
                SpecToken::LeftParentheses
            } else if c == ')' {
                SpecToken::RightParentheses
            } else if c == ',' {
                SpecToken::Comma
            } else if c == ';' {
                SpecToken::Semicolon
            } else if c == '+' {
                SpecToken::Plus
            } else if c == '-' {
                SpecToken::Minus
            } else if c == '*' {
                SpecToken::Star
            } else if c == '/' {
                SpecToken::Divide
            } else {
                SpecToken::Equal
            };
            lemma_scan_step(s, i, i + 1, t, toks);
        } else if c == '>' || c == '<' {
            if i + 1 < s.len() && s[i + 1] == '=' {
                let t: SpecToken = if c == '>' {
                    SpecToken::GreaterThanOrEqual
                } else {
                    SpecToken::LessThanOrEqual
                };
                lemma_scan_step(s, i, i + 2, t, toks);
            } else {
                let t: SpecToken = if c == '>' {
                    SpecToken::GreaterThan
                } else {
                    SpecToken::LessThan
                };
                lemma_scan_step(s, i, i + 1, t, toks);
            }
        } else if c == '!' {
            assert(i + 1 < s.len() && s[i + 1] == '=');
            lemma_scan_step(s, i, i + 2, SpecToken::NotEqual, toks);
        } else if c == '"' || c == '\'' {
            lemma_scan_string_bounds(s, i + 1, c);
            match scan_string(s, i + 1, c) {
                Ok((content, j)) => {
                    lemma_scan_step(s, i, j, SpecToken::String(content), toks);
                },
                Err(_) => {
                    assert(false);
                },
            }
        } else if is_digit_char(c) {
            lemma_digit_run_end(s, i);
            let j = digit_run_end(s, i);
            let t = SpecToken::Number(digits_val(s.subrange(i, j)) as u64);
            lemma_scan_step(s, i, j, t, toks);
        } else if is_ident_start_char(c) {
            lemma_ident_run_end(s, i);
            let j = ident_run_end(s, i);
            let word = s.subrange(i, j);
            let t: SpecToken = match spec_keyword_of(word) {
                Some(k) => SpecToken::Keyword(k),
                None => SpecToken::Identifier(word),
            };
            lemma_scan_step(s, i, j, t, toks);
        } else {
            assert(false);
        }
    }
}

/// One step of [`lemma_scan_ends_with_eof`]: the scan at `i` produced the
/// token `t` and continued at `j`.
proof fn lemma_scan_step(s: Seq<char>, i: int, j: int, t: SpecToken, toks: Seq<SpecToken>)
    requires
        0 <= i < j <= s.len(),
        t != SpecToken::Eof,
        spec_scan(s, i) == Ok::<Seq<SpecToken>, TokenizerError>(toks),
        spec_scan(s, i) == scan_cons(t, spec_scan(s, j)),
    ensures
        toks.len() >= 1,
        toks[toks.len() - 1] == SpecToken::Eof,
        forall|k: int| 0 <= k < toks.len() - 1 ==> toks[k] != SpecToken::Eof,
    decreases s.len() - j, 1int,
{
    match spec_scan(s, j) {
        Ok(rest) => {
            lemma_scan_ends_with_eof(s, j, rest);
            assert(toks == seq![t] + rest);
            assert(toks[toks.len() - 1] == rest[rest.len() - 1]);
            assert(forall|k: int| 0 <= k < toks.len() - 1 ==> toks[k] != SpecToken::Eof) by {
                assert(forall|k: int|
                    1 <= k < toks.len() ==> toks[k] == rest[k - 1]);
            }
        },
        Err(_) => {
            assert(false);
        },
    }
}

/// Whether the scanner can produce the token at all: every token but the
/// invalid-character marker and the end marker, with identifier text of
/// the shape the scanner emits.
pub open spec fn renderable_token(t: SpecToken) -> bool {
    match t {
        SpecToken::Identifier(s) => wf_ident(s),
        SpecToken::Invalid(_) => false,
        SpecToken::Eof => false,
        _ => true,
    }
}

/// Whether every token of the sequence is renderable.
pub open spec fn renderable_tokens(ts: Seq<SpecToken>) -> bool {
    forall|i: int| 0 <= i < ts.len() ==> renderable_token(ts[i])
}

/// A keyword's canonical spelling is a run of identifier characters that
/// the keyword table maps back to the keyword.
proof fn lemma_keyword_lexes(k: Keyword)
    ensures
        keyword_text(k).len() >= 1,
        is_ident_start_char(keyword_text(k)[0]),
        forall|m: int| 0 <= m < keyword_text(k).len() ==> is_ident_char(keyword_text(k)[m]),
        spec_keyword_of(keyword_text(k)) == Some(k),
{
    reveal_strlit("SELECT");
    reveal_strlit("select");
    reveal_strlit("CREATE");
    reveal_strlit("create");
    reveal_strlit("TABLE");
    reveal_strlit("table");
    reveal_strlit("WHERE");
    reveal_strlit("where");
    reveal_strlit("ORDER");
    reveal_strlit("order");
    reveal_strlit("BY");
    reveal_strlit("by");
    reveal_strlit("ASC");
    reveal_strlit("asc");
    reveal_strlit("DESC");
    reveal_strlit("desc");
    reveal_strlit("FROM");
    reveal_strlit("from");
    reveal_strlit("AND");
    reveal_strlit("and");
    reveal_strlit("OR");
    reveal_strlit("or");
    reveal_strlit("NOT");
    reveal_strlit("not");
    reveal_strlit("TRUE");
    reveal_strlit("true");
    reveal_strlit("FALSE");
    reveal_strlit("false");
    reveal_strlit("PRIMARY");
    reveal_strlit("primary");
    reveal_strlit("KEY");
    reveal_strlit("key");
    reveal_strlit("CHECK");
    reveal_strlit("check");
    reveal_strlit("INT");
    reveal_strlit("int");
    reveal_strlit("BOOL");
    reveal_strlit("bool");
    reveal_strlit("VARCHAR");
    reveal_strlit("varchar");
    reveal_strlit("NULL");
    reveal_strlit("null");
    match k {
        Keyword::Select => {
            assert(fold_chars("SELECT"@) =~= "select"@);
        },
        Keyword::Create => {
            assert(fold_chars("CREATE"@) =~= "create"@);
            assert("create"@[0] != "select"@[0]);
        },
        Keyword::Table => {
            assert(fold_chars("TABLE"@) =~= "table"@);
            assert("table"@[0] != "where"@[0]);
            assert("table"@[0] != "order"@[0]);
        },
        Keyword::Where => {
            assert(fold_chars("WHERE"@) =~= "where"@);
        },
        Keyword::Order => {
            assert(fold_chars("ORDER"@) =~= "order"@);
            assert("order"@[0] != "where"@[0]);
        },
        Keyword::By => {
            assert(fold_chars("BY"@) =~= "by"@);
        },
        Keyword::Asc => {
            assert(fold_chars("ASC"@) =~= "asc"@);
            assert("asc"@[0] != "int"@[0]);
            assert("asc"@[0] != "key"@[0]);
            assert("asc"@[0] != "not"@[0]);
            assert("asc"@[1] != "and"@[1]);
        },
        Keyword::Desc => {
            assert(fold_chars("DESC"@) =~= "desc"@);
            assert("desc"@[0] != "from"@[0]);
            assert("desc"@[0] != "bool"@[0]);
            assert("desc"@[0] != "null"@[0]);
            assert("desc"@[0] != "true"@[0]);
        },
        Keyword::From => {
            assert(fold_chars("FROM"@) =~= "from"@);
        },
        Keyword::And => {
            assert(fold_chars("AND"@) =~= "and"@);
            assert("and"@[0] != "int"@[0]);
            assert("and"@[0] != "key"@[0]);
            assert("and"@[0] != "not"@[0]);
        },
        Keyword::Or => {
            assert(fold_chars("OR"@) =~= "or"@);
            assert("or"@[0] != "by"@[0]);
        },
        Keyword::Not => {
            assert(fold_chars("NOT"@) =~= "not"@);
            assert("not"@[0] != "int"@[0]);
            assert("not"@[0] != "key"@[0]);
        },
        Keyword::True => {
            assert(fold_chars("TRUE"@) =~= "true"@);
            assert("true"@[0] != "from"@[0]);
            assert("true"@[0] != "bool"@[0]);
            assert("true"@[0] != "null"@[0]);
        },
        Keyword::False => {
            assert(fold_chars("FALSE"@) =~= "false"@);
            assert("false"@[0] != "where"@[0]);
            assert("false"@[0] != "order"@[0]);
            assert("false"@[0] != "table"@[0]);
            assert("false"@[0] != "check"@[0]);
        },
        Keyword::Primary => {
            assert(fold_chars("PRIMARY"@) =~= "primary"@);
            assert("primary"@[0] != "varchar"@[0]);
        },
        Keyword::Key => {
            assert(fold_chars("KEY"@) =~= "key"@);
            assert("key"@[0] != "int"@[0]);
        },
        Keyword::Check => {
            assert(fold_chars("CHECK"@) =~= "check"@);
            assert("check"@[0] != "where"@[0]);
            assert("check"@[0] != "order"@[0]);
            assert("check"@[0] != "table"@[0]);
        },
        Keyword::Int => {
            assert(fold_chars("INT"@) =~= "int"@);
        },
        Keyword::Bool => {
            assert(fold_chars("BOOL"@) =~= "bool"@);
            assert("bool"@[0] != "from"@[0]);
        },
        Keyword::Varchar => {
            assert(fold_chars("VARCHAR"@) =~= "varchar"@);
        },
        Keyword::Null => {
            assert(fold_chars("NULL"@) =~= "null"@);
            assert("null"@[0] != "from"@[0]);
            assert("null"@[0] != "bool"@[0]);
        },
    }
}

/// The decimal digits of `n` are digit characters whose value reads back
/// as `n`.
proof fn lemma_digits_lex(n: int)
    requires
        0 <= n,
    ensures
        digits_of(n).len() >= 1,
        forall|m: int| 0 <= m < digits_of(n).len() ==> is_digit_char(digits_of(n)[m]),
        digits_val(digits_of(n)) == n,
    decreases n,
{
    if n < 10 {
        assert(digits_of(n) == seq![digit_char(n)]);
        assert(is_digit_char(digit_char(n)));
        assert(digits_of(n).drop_last() =~= Seq::<char>::empty());
        assert(digits_val(Seq::<char>::empty()) == 0);
        assert(digits_of(n).last() == digit_char(n));
        assert(digits_val(digits_of(n)) == digit_val(digit_char(n)));
        assert(digit_val(digit_char(n)) == n);
    } else {
        lemma_digits_lex(n / 10);
        let whole = digits_of(n);
        assert(whole == digits_of(n / 10) + seq![digit_char(n % 10)]);
        assert(whole.drop_last() =~= digits_of(n / 10));
        assert(whole.last() == digit_char(n % 10));
        assert(digit_val(digit_char(n % 10)) == n % 10);
        assert(digits_val(whole) == digits_val(digits_of(n / 10)) * 10 + (n % 10));
        assert((n / 10) * 10 + n % 10 == n);
        assert(forall|m: int| 0 <= m < whole.len() ==> is_digit_char(whole[m])) by {
            assert(forall|m: int|
                0 <= m < digits_of(n / 10).len() ==> whole[m] == digits_of(n / 10)[m]);
            assert(is_digit_char(digit_char(n % 10)));
        }
    }
}

/// Scanning an escaped string body recovers its characters and stops just
/// past the closing quote.
proof fn lemma_scan_escaped(text: Seq<char>, j: int, s: Seq<char>)
    requires
        0 <= j,
        j + escape_string(s).len() + 1 <= text.len(),
        text.subrange(j, j + escape_string(s).len()) == escape_string(s),
        text[j + escape_string(s).len()] == '"',
    ensures
        scan_string(text, j, '"') == Ok::<(Seq<char>, int), TokenizerError>(
            (s, j + escape_string(s).len() + 1),
        ),
    decreases s.len(),
{
    let esc = escape_string(s);
    assert forall|m: int| j <= m < j + esc.len() implies #[trigger] text[m] == esc[m - j] by {
        assert(text.subrange(j, j + esc.len())[m - j] == text[m]);
    }
    if s.len() == 0 {
        assert(esc.len() == 0);
        assert(text[j] == '"');
        assert(scan_string(text, j, '"') == Ok::<(Seq<char>, int), TokenizerError>(
            (Seq::empty(), j + 1),
        ));
        assert(s =~= Seq::<char>::empty());
    } else {
        let c = s[0];
        let rest = s.drop_first();
        assert(esc == escaped_char(c) + escape_string(rest));
        let esc_rest = escape_string(rest);
        if c == '"' || c == '\\' {
            assert(esc[0] == '\\');
            assert(esc[1] == c);
            assert(text[j] == '\\');
            assert(text[j + 1] == c);
            assert(text.subrange(j + 2, j + 2 + esc_rest.len()) =~= esc_rest) by {
                assert(forall|m: int| 0 <= m < esc_rest.len() ==> esc[m + 2] == esc_rest[m]);
            }
            lemma_scan_escaped(text, j + 2, rest);
            assert(text[j] != '"');
            assert(scan_string(text, j, '"') == Ok::<(Seq<char>, int), TokenizerError>(
                (seq![text[j + 1]] + rest, j + esc.len() + 1),
            ));
            assert(seq![c] + rest =~= s);
        } else {
            assert(esc[0] == c);
            assert(text[j] == c);
            assert(text.subrange(j + 1, j + 1 + esc_rest.len()) =~= esc_rest) by {
                assert(forall|m: int| 0 <= m < esc_rest.len() ==> esc[m + 1] == esc_rest[m]);
            }
            lemma_scan_escaped(text, j + 1, rest);
            assert(scan_string(text, j, '"') == Ok::<(Seq<char>, int), TokenizerError>(
                (seq![c] + rest, j + esc.len() + 1),
            ));
            assert(seq![c] + rest =~= s);
        }
    }
}

/// Scanning the text of one renderable token, followed by a space or the
/// end of the input, yields that token and continues past its text.
proof fn lemma_scan_one_token(text: Seq<char>, i: int, t: SpecToken)
    requires
        0 <= i,
        renderable_token(t),
        i + token_text(t).len() <= text.len(),
        text.subrange(i, i + token_text(t).len()) == token_text(t),
        i + token_text(t).len() == text.len() || text[i + token_text(t).len()] == ' ',
    ensures
        spec_scan(text, i) == scan_cons(t, spec_scan(text, i + token_text(t).len())),
{
    let w = token_text(t);
    let j = i + w.len();
    assert forall|m: int| i <= m < j implies #[trigger] text[m] == w[m - i] by {
        assert(text.subrange(i, j)[m - i] == text[m]);
    }
    match t {
        SpecToken::Keyword(k) => {
            lemma_keyword_lexes(k);
            lemma_scan_word(text, i, w);
            assert(text.subrange(i, j) == w);
            assert(spec_keyword_of(text.subrange(i, j)) == Some(k));
        },
        SpecToken::Identifier(s) => {
            lemma_scan_word(text, i, s);
            assert(text.subrange(i, j) == s);
            assert(spec_keyword_of(text.subrange(i, j)) is None);
        },
        SpecToken::Number(n) => {
            lemma_digits_lex(n as int);
            let c = text[i];
            assert(c == w[0]);
            assert(is_digit_char(c));
            assert(!is_space_char(c) && c != '(' && c != ')' && c != ',' && c != ';' && c != '+'
                && c != '-' && c != '*' && c != '/' && c != '=' && c != '>' && c != '<' && c != '!'
                && c != '"' && c != '\'');
            assert forall|m: int| i <= m < j implies is_digit_char(text[m]) by {
                assert(text[m] == w[m - i]);
            }
            lemma_digit_run_end_step(text, i, j);
            if j < text.len() {
                assert(text[j] == ' ');
                assert(!is_digit_char(text[j]));
            }
            assert(digit_run_end(text, j) == j);
            assert(digit_run_end(text, i) == j);
            assert(text.subrange(i, j) == w);
            assert(digits_val(w) == n);
            assert(digits_val(text.subrange(i, j)) <= u64::MAX);
            assert(digits_val(text.subrange(i, j)) as u64 == n);
        },
        SpecToken::String(s) => {
            reveal_strlit("\"");
            let c = text[i];
            assert(w == seq!['"'] + escape_string(s) + seq!['"']);
            assert(c == '"');
            assert(text.subrange(i + 1, i + 1 + escape_string(s).len()) =~= escape_string(s))
                by {
                assert(forall|m: int|
                    0 <= m < escape_string(s).len() ==> w[m + 1] == escape_string(s)[m]);
            }
            assert(text[i + 1 + escape_string(s).len()] == '"') by {
                assert(w[w.len() - 1] == '"');
            }
            lemma_scan_escaped(text, i + 1, s);
            assert(scan_string(text, i + 1, c) == Ok::<(Seq<char>, int), TokenizerError>(
                (s, j),
            ));
            assert(!is_space_char(c) && c != '(' && c != ')' && c != ',' && c != ';' && c != '+'
                && c != '-' && c != '*' && c != '/' && c != '=' && c != '>' && c != '<' && c
                != '!');
        },
        SpecToken::Invalid(_) => {
            assert(false);
        },
        SpecToken::Eof => {
            assert(false);
        },
        _ => {
            lemma_scan_symbol(text, i, t);
        },
    }
}

/// The ident-run case of [`lemma_scan_one_token`]: a well-shaped word at
/// `i`, followed by a space or the end, is scanned as one maximal run.
proof fn lemma_scan_word(text: Seq<char>, i: int, s: Seq<char>)
    requires
        0 <= i,
        i + s.len() <= text.len(),
        text.subrange(i, i + s.len()) == s,
        i + s.len() == text.len() || text[i + s.len()] == ' ',
        s.len() >= 1,
        is_ident_start_char(s[0]),
        forall|m: int| 0 <= m < s.len() ==> is_ident_char(s[m]),
    ensures
        ident_run_end(text, i) == i + s.len(),
        text.subrange(i, ident_run_end(text, i)) == s,
        spec_scan(text, i) == ({
            let word = text.subrange(i, ident_run_end(text, i));
            let tok = match spec_keyword_of(word) {
                Some(k) => SpecToken::Keyword(k),
                None => SpecToken::Identifier(word),
            };
            scan_cons(tok, spec_scan(text, ident_run_end(text, i)))
        }),
{
    let j = i + s.len();
    assert forall|m: int| i <= m < j implies #[trigger] text[m] == s[m - i] by {
        assert(text.subrange(i, j)[m - i] == text[m]);
    }
    let c = text[i];
    assert(c == s[0]);
    assert(is_ident_start_char(c));
    assert(!is_space_char(c) && c != '(' && c != ')' && c != ',' && c != ';' && c != '+' && c
        != '-' && c != '*' && c != '/' && c != '=' && c != '>' && c != '<' && c != '!' && c != '"'
        && c != '\'' && !is_digit_char(c));
    assert forall|m: int| i <= m < j implies is_ident_char(text[m]) by {
        assert(text[m] == s[m - i]);
    }
    lemma_ident_run_end_step(text, i, j);
    if j < text.len() {
        assert(text[j] == ' ');
        assert(!is_ident_char(text[j]));
    }
    assert(ident_run_end(text, j) == j);
    assert(ident_run_end(text, i) == j);
    assert(text.subrange(i, j) =~= s);
}

/// The punctuation cases of [`lemma_scan_one_token`].
proof fn lemma_scan_symbol(text: Seq<char>, i: int, t: SpecToken)
    requires
        0 <= i,
        i + token_text(t).len() <= text.len(),
        text.subrange(i, i + token_text(t).len()) == token_text(t),
        i + token_text(t).len() == text.len() || text[i + token_text(t).len()] == ' ',
        t matches SpecToken::RightParentheses || t matches SpecToken::LeftParentheses
            || t matches SpecToken::GreaterThan || t matches SpecToken::GreaterThanOrEqual
            || t matches SpecToken::LessThan || t matches SpecToken::LessThanOrEqual
            || t matches SpecToken::Equal || t matches SpecToken::NotEqual
            || t matches SpecToken::Star || t matches SpecToken::Divide
            || t matches SpecToken::Minus || t matches SpecToken::Plus
            || t matches SpecToken::Comma || t matches SpecToken::Semicolon,
    ensures
        spec_scan(text, i) == scan_cons(t, spec_scan(text, i + token_text(t).len())),
{
    let w = token_text(t);
    let j = i + w.len();
    assert forall|m: int| i <= m < j implies #[trigger] text[m] == w[m - i] by {
        assert(text.subrange(i, j)[m - i] == text[m]);
    }
    reveal_strlit(")");
    reveal_strlit("(");
    reveal_strlit(">");
    reveal_strlit(">=");
    reveal_strlit("<");
    reveal_strlit("<=");
    reveal_strlit("=");
    reveal_strlit("!=");
    reveal_strlit("*");
    reveal_strlit("/");
    reveal_strlit("-");
    reveal_strlit("+");
    reveal_strlit(",");
    reveal_strlit(";");
    match t {
        SpecToken::GreaterThan => {
            assert(text[i] == '>');
            if i + 1 < text.len() {
                assert(text[i + 1] == ' ');
            }
        },
        SpecToken::LessThan => {
            assert(text[i] == '<');
            if i + 1 < text.len() {
                assert(text[i + 1] == ' ');
            }
        },
        SpecToken::GreaterThanOrEqual => {
            assert(text[i] == '>');
            assert(text[i + 1] == '=');
        },
        SpecToken::LessThanOrEqual => {
            assert(text[i] == '<');
            assert(text[i + 1] == '=');
        },
        SpecToken::NotEqual => {
            assert(text[i] == '!');
            assert(text[i + 1] == '=');
        },
        _ => {},
    }
}

/// Scanning the space-joined text of renderable tokens, starting at `i`,
/// yields those tokens and the end marker.
proof fn lemma_scan_token_list(text: Seq<char>, i: int, ts: Seq<SpecToken>)
    requires
        0 <= i <= text.len(),
        renderable_tokens(ts),
        text.len() == i + tokens_text(ts).len(),
        text.subrange(i, text.len() as int) == tokens_text(ts),
    ensures
        spec_scan(text, i) == Ok::<Seq<SpecToken>, TokenizerError>(ts + seq![SpecToken::Eof]),
    decreases ts.len(),
{
    if ts.len() == 0 {
        assert(i == text.len());
        assert(ts + seq![SpecToken::Eof] =~= seq![SpecToken::Eof]);
    } else {
        let t = ts[0];
        let w = token_text(t);
        let body = tokens_text(ts);
        assert(renderable_token(t));
        assert forall|m: int| i <= m < text.len() implies #[trigger] text[m] == body[m - i] by {
            assert(text.subrange(i, text.len() as int)[m - i] == text[m]);
        }
        if ts.len() == 1 {
            assert(body == w);
            assert(text.subrange(i, i + w.len()) =~= w);
            lemma_scan_one_token(text, i, t);
            assert(spec_scan(text, i + w.len()) == Ok::<Seq<SpecToken>, TokenizerError>(
                seq![SpecToken::Eof],
            ));
            assert(seq![t] + seq![SpecToken::Eof] =~= ts + seq![SpecToken::Eof]);
        } else {
            let rest = ts.drop_first();
            let rest_text = tokens_text(rest);
            assert(body == w + seq![' '] + rest_text);
            assert(text.subrange(i, i + w.len()) =~= w) by {
                assert(forall|m: int| 0 <= m < w.len() ==> body[m] == w[m]);
            }
            assert(text[i + w.len()] == ' ') by {
                assert(body[w.len() as int] == ' ');
            }
            lemma_scan_one_token(text, i, t);
            let j = i + w.len();
            assert(spec_scan(text, j) == spec_scan(text, j + 1)) by {
                assert(is_space_char(text[j]));
            }
            assert(text.subrange(j + 1, text.len() as int) =~= rest_text) by {
                assert(forall|m: int|
                    0 <= m < rest_text.len() ==> body[w.len() + 1 + m] == rest_text[m]);
            }
            assert(renderable_tokens(rest)) by {
                assert(forall|m: int| 0 <= m < rest.len() ==> rest[m] == ts[m + 1]);
            }
            lemma_scan_token_list(text, j + 1, rest);
            assert(seq![t] + (rest + seq![SpecToken::Eof]) =~= ts + seq![SpecToken::Eof]);
        }
    }
}

/// Scanning the rendered text of renderable tokens yields exactly those
/// tokens, ended by the end marker.
pub proof fn lemma_scan_of_rendered_tokens(ts: Seq<SpecToken>)
    requires
        renderable_tokens(ts),
    ensures
        spec_scan(tokens_text(ts), 0) == Ok::<Seq<SpecToken>, TokenizerError>(
            ts + seq![SpecToken::Eof],
        ),
{
    let text = tokens_text(ts);
    assert(text.subrange(0, text.len() as int) =~= text);
    lemma_scan_token_list(text, 0, ts);
}

/// A rendered expression is never empty.
proof fn lemma_render_expr_len(e: SpecExpression)
    ensures
        render_expr_tokens(e).len() >= 1,
    decreases e,
{
}

/// The first token of a rendered expression opens a parenthesis or is a
/// literal or identifier token: never `*`, a keyword of the statement
/// grammar, or a comma.
proof fn lemma_render_expr_head(e: SpecExpression)
    ensures
        render_expr_tokens(e).len() >= 1,
        render_expr_tokens(e)[0] != SpecToken::Star,
        render_expr_tokens(e)[0] != SpecToken::Keyword(Keyword::From),
    decreases e,
{
}

/// Whether the token at `p`, if any, lets an expression parse stop there:
/// no binary operator and no ordering keyword.
pub open spec fn expr_stopper(toks: Seq<SpecToken>, p: int) -> bool {
    p >= toks.len() || (spec_binop_of(toks[p]) is None && toks[p] != SpecToken::Keyword(
        Keyword::Asc,
    ) && toks[p] != SpecToken::Keyword(Keyword::Desc))
}

/// A rendered expression re-parses as one prefix term, consuming exactly
/// its own tokens.
#[verifier::spinoff_prover]
#[verifier::rlimit(80)]
proof fn lemma_parse_prefix_of_render(toks: Seq<SpecToken>, pos: int, e: SpecExpression)
    requires
        0 <= pos,
        pos + render_expr_tokens(e).len() <= toks.len(),
        toks.subrange(pos, pos + render_expr_tokens(e).len()) == render_expr_tokens(e),
    ensures
        spec_parse_prefix(toks, pos) == Ok::<(SpecExpression, int), SpecParseError>(
            (e, pos + render_expr_tokens(e).len()),
        ),
    decreases e,
{
    let frag = render_expr_tokens(e);
    let end = pos + frag.len();
    assert forall|m: int| pos <= m < end implies #[trigger] toks[m] == frag[m - pos] by {
        assert(toks.subrange(pos, end)[m - pos] == toks[m]);
    }
    match e {
        SpecExpression::Number(_) => {
            assert(toks[pos] == frag[0]);
        },
        SpecExpression::String(_) => {
            assert(toks[pos] == frag[0]);
        },
        SpecExpression::Bool(_) => {
            assert(toks[pos] == frag[0]);
        },
        SpecExpression::Identifier(_) => {
            assert(toks[pos] == frag[0]);
        },
        SpecExpression::BinaryOperation { left_operand, operator, right_operand } => {
            let rl = render_expr_tokens(*left_operand);
            let rr = render_expr_tokens(*right_operand);
            lemma_render_expr_len(*left_operand);
            lemma_render_expr_len(*right_operand);
            let p1 = pos + 1 + rl.len();
            let p2 = p1 + 1 + rr.len();
            assert(frag == seq![SpecToken::LeftParentheses] + rl + seq![binop_token(operator)]
                + rr + seq![SpecToken::RightParentheses]);
            assert(toks[pos] == SpecToken::LeftParentheses);
            assert(toks.subrange(pos + 1, p1) =~= rl) by {
                assert(forall|m: int| 0 <= m < rl.len() ==> #[trigger] frag[1 + m] == rl[m]);
            }
            lemma_parse_prefix_of_render(toks, pos + 1, *left_operand);
            assert(toks[p1] == binop_token(operator)) by {
                assert(frag[p1 - pos] == binop_token(operator));
            }
            assert(spec_binop_of(binop_token(operator)) == Some(operator));
            assert(spec_binop_precedence(operator) >= 10);
            assert(toks.subrange(p1 + 1, p2) =~= rr) by {
                assert(forall|m: int|
                    0 <= m < rr.len() ==> #[trigger] frag[1 + rl.len() + 1 + m] == rr[m]);
            }
            lemma_parse_prefix_of_render(toks, p1 + 1, *right_operand);
            assert(toks[p2] == SpecToken::RightParentheses) by {
                assert(frag[p2 - pos] == SpecToken::RightParentheses);
            }
            // the right-hand side at the operator's precedence
            assert(spec_parse_infix_chain(toks, p2, *right_operand, spec_binop_precedence(
                operator,
            )) == Ok::<(SpecExpression, int), SpecParseError>((*right_operand, p2)));
            assert(spec_parse_expression(toks, p1 + 1, spec_binop_precedence(operator)) == Ok::<
                (SpecExpression, int),
                SpecParseError,
            >((*right_operand, p2)));
            // one infix step folds the node
            assert(spec_parse_infix(toks, p1, *left_operand, spec_binop_precedence(operator))
                == Ok::<(SpecExpression, int), SpecParseError>((e, p2)));
            // the climbing loop at the opening parenthesis's level
            assert(spec_parse_infix_chain(toks, p1, *left_operand, 0) == spec_parse_infix_chain(
                toks,
                p2,
                e,
                0,
            ));
            assert(spec_parse_infix_chain(toks, p2, e, 0) == Ok::<
                (SpecExpression, int),
                SpecParseError,
            >((e, p2)));
            assert(spec_parse_expression(toks, pos + 1, 0) == Ok::<
                (SpecExpression, int),
                SpecParseError,
            >((e, p2)));
            assert(spec_expect(toks, p2, SpecToken::RightParentheses) == Ok::<
                int,
                SpecParseError,
            >(p2 + 1));
        },
        SpecExpression::UnaryOperation { operator, operand } => {
            let rx = render_expr_tokens(*operand);
            lemma_render_expr_len(*operand);
            if operator == UnaryOperator::Asc || operator == UnaryOperator::Desc {
                let q = pos + 1 + rx.len();
                assert(frag == seq![SpecToken::LeftParentheses] + rx + seq![
                    unop_token(operator),
                    SpecToken::RightParentheses,
                ]);
                assert(toks[pos] == SpecToken::LeftParentheses);
                assert(toks.subrange(pos + 1, q) =~= rx) by {
                    assert(forall|m: int| 0 <= m < rx.len() ==> #[trigger] frag[1 + m] == rx[m]);
                }
                lemma_parse_prefix_of_render(toks, pos + 1, *operand);
                assert(toks[q] == unop_token(operator)) by {
                    assert(frag[q - pos] == unop_token(operator));
                }
                assert(toks[q + 1] == SpecToken::RightParentheses) by {
                    assert(frag[q + 1 - pos] == SpecToken::RightParentheses);
                }
                assert(spec_binop_of(unop_token(operator)) is None);
                assert(spec_parse_infix_chain(toks, q, *operand, 0) == Ok::<
                    (SpecExpression, int),
                    SpecParseError,
                >((*operand, q)));
                assert(spec_parse_expression(toks, pos + 1, 0) == Ok::<
                    (SpecExpression, int),
                    SpecParseError,
                >((e, q + 1)));
                assert(spec_expect(toks, q + 1, SpecToken::RightParentheses) == Ok::<
                    int,
                    SpecParseError,
                >(q + 2));
            } else {
                let q = pos + 2 + rx.len();
                assert(frag == seq![SpecToken::LeftParentheses, unop_token(operator)] + rx
                    + seq![SpecToken::RightParentheses]);
                assert(toks[pos] == SpecToken::LeftParentheses);
                assert(toks[pos + 1] == unop_token(operator));
                assert(toks.subrange(pos + 2, q) =~= rx) by {
                    assert(forall|m: int| 0 <= m < rx.len() ==> #[trigger] frag[2 + m] == rx[m]);
                }
                lemma_parse_prefix_of_render(toks, pos + 2, *operand);
                assert(toks[q] == SpecToken::RightParentheses) by {
                    assert(frag[q - pos] == SpecToken::RightParentheses);
                }
                // the operand at the unary precedence: no operator binds above it
                assert(spec_parse_infix_chain(toks, q, *operand, UNARY_PRECEDENCE) == Ok::<
                    (SpecExpression, int),
                    SpecParseError,
                >((*operand, q)));
                assert(spec_parse_expression(toks, pos + 2, UNARY_PRECEDENCE) == Ok::<
                    (SpecExpression, int),
                    SpecParseError,
                >((*operand, q)));
                assert(spec_parse_expression(toks, pos + 1, 0) == Ok::<
                    (SpecExpression, int),
                    SpecParseError,
                >((e, q)));
                assert(spec_expect(toks, q, SpecToken::RightParentheses) == Ok::<
                    int,
                    SpecParseError,
                >(q + 1));
            }
        },
    }
}

/// A rendered expression followed by a stopping token re-parses in full,
/// at any minimum precedence.
proof fn lemma_parse_expression_of_render(
    toks: Seq<SpecToken>,
    pos: int,
    e: SpecExpression,
    min_prec: u8,
)
    requires
        0 <= pos,
        pos + render_expr_tokens(e).len() <= toks.len(),
        toks.subrange(pos, pos + render_expr_tokens(e).len()) == render_expr_tokens(e),
        expr_stopper(toks, pos + render_expr_tokens(e).len()),
    ensures
        spec_parse_expression(toks, pos, min_prec) == Ok::<(SpecExpression, int), SpecParseError>(
            (e, pos + render_expr_tokens(e).len()),
        ),
{
    let end = pos + render_expr_tokens(e).len();
    lemma_render_expr_len(e);
    lemma_parse_prefix_of_render(toks, pos, e);
    assert(spec_parse_infix_chain(toks, end, e, min_prec) == Ok::<
        (SpecExpression, int),
        SpecParseError,
    >((e, end)));
}

/// A rendered comma-separated expression list, followed by a stopping
/// token that is not a comma, re-parses in full.
#[verifier::spinoff_prover]
#[verifier::rlimit(80)]
proof fn lemma_parse_expression_list_of_render(toks: Seq<SpecToken>, pos: int, es: Seq<
    SpecExpression,
>)
    requires
        0 <= pos,
        es.len() >= 1,
        pos + render_exprs_tokens(es).len() <= toks.len(),
        toks.subrange(pos, pos + render_exprs_tokens(es).len()) == render_exprs_tokens(es),
        expr_stopper(toks, pos + render_exprs_tokens(es).len()),
        pos + render_exprs_tokens(es).len() >= toks.len() || toks[pos + render_exprs_tokens(
            es,
        ).len()] != SpecToken::Comma,
    ensures
        spec_parse_expression_list(toks, pos) == Ok::<(Seq<SpecExpression>, int), SpecParseError>(
            (es, pos + render_exprs_tokens(es).len()),
        ),
    decreases es.len(),
{
    let frag = render_exprs_tokens(es);
    let end = pos + frag.len();
    assert forall|m: int| pos <= m < end implies #[trigger] toks[m] == frag[m - pos] by {
        assert(toks.subrange(pos, end)[m - pos] == toks[m]);
    }
    let e0 = es[0];
    let r0 = render_expr_tokens(e0);
    lemma_render_expr_len(e0);
    if es.len() == 1 {
        assert(frag == r0);
        lemma_parse_expression_of_render(toks, pos, e0, 0);
        assert(seq![e0] =~= es);
    } else {
        let rest = es.drop_first();
        let rrest = render_exprs_tokens(rest);
        assert(frag == r0 + seq![SpecToken::Comma] + rrest);
        let q = pos + r0.len();
        assert(toks.subrange(pos, q) =~= r0) by {
            assert(forall|m: int| 0 <= m < r0.len() ==> #[trigger] frag[m] == r0[m]);
        }
        assert(toks[q] == SpecToken::Comma) by {
            assert(frag[q - pos] == SpecToken::Comma);
        }
        lemma_parse_expression_of_render(toks, pos, e0, 0);
        assert(toks.subrange(q + 1, end) =~= rrest) by {
            assert(forall|m: int|
                0 <= m < rrest.len() ==> #[trigger] frag[r0.len() + 1 + m] == rrest[m]);
        }
        lemma_parse_expression_list_of_render(toks, q + 1, rest);
        assert(seq![e0] + rest =~= es);
    }
}

/// A rendered optional `WHERE` clause re-parses in full.
proof fn lemma_parse_where_of_render(toks: Seq<SpecToken>, pos: int, w: Option<SpecExpression>)
    requires
        0 <= pos,
        pos + render_where_tokens(w).len() <= toks.len(),
        toks.subrange(pos, pos + render_where_tokens(w).len()) == render_where_tokens(w),
        w is None ==> (pos >= toks.len() || toks[pos] != SpecToken::Keyword(Keyword::Where)),
        w is Some ==> expr_stopper(toks, pos + render_where_tokens(w).len()),
    ensures
        spec_parse_where(toks, pos) == Ok::<(Option<SpecExpression>, int), SpecParseError>(
            (w, pos + render_where_tokens(w).len()),
        ),
{
    let frag = render_where_tokens(w);
    let end = pos + frag.len();
    assert forall|m: int| pos <= m < end implies #[trigger] toks[m] == frag[m - pos] by {
        assert(toks.subrange(pos, end)[m - pos] == toks[m]);
    }
    match w {
        None => {},
        Some(e) => {
            let re = render_expr_tokens(e);
            assert(frag == seq![SpecToken::Keyword(Keyword::Where)] + re);
            assert(toks[pos] == SpecToken::Keyword(Keyword::Where));
            assert(toks.subrange(pos + 1, end) =~= re) by {
                assert(forall|m: int| 0 <= m < re.len() ==> #[trigger] frag[1 + m] == re[m]);
            }
            lemma_parse_expression_of_render(toks, pos + 1, e, 0);
        },
    }
}

/// A rendered optional `ORDER BY` clause, followed by a stopping token
/// that is not a comma, re-parses in full.
proof fn lemma_parse_orderby_of_render(toks: Seq<SpecToken>, pos: int, ob: Seq<SpecExpression>)
    requires
        0 <= pos,
        pos + render_orderby_tokens(ob).len() <= toks.len(),
        toks.subrange(pos, pos + render_orderby_tokens(ob).len()) == render_orderby_tokens(ob),
        ob.len() == 0 ==> (pos >= toks.len() || toks[pos] != SpecToken::Keyword(Keyword::Order)),
        ob.len() >= 1 ==> expr_stopper(toks, pos + render_orderby_tokens(ob).len()) && (pos
            + render_orderby_tokens(ob).len() >= toks.len() || toks[pos + render_orderby_tokens(
            ob,
        ).len()] != SpecToken::Comma),
    ensures
        spec_parse_orderby(toks, pos) == Ok::<(Seq<SpecExpression>, int), SpecParseError>(
            (ob, pos + render_orderby_tokens(ob).len()),
        ),
{
    let frag = render_orderby_tokens(ob);
    let end = pos + frag.len();
    assert forall|m: int| pos <= m < end implies #[trigger] toks[m] == frag[m - pos] by {
        assert(toks.subrange(pos, end)[m - pos] == toks[m]);
    }
    if ob.len() == 0 {
        assert(ob =~= Seq::<SpecExpression>::empty());
    } else {
        let rl = render_exprs_tokens(ob);
        assert(frag == seq![
            SpecToken::Keyword(Keyword::Order),
            SpecToken::Keyword(Keyword::By),
        ] + rl);
        assert(toks[pos] == SpecToken::Keyword(Keyword::Order));
        assert(toks[pos + 1] == SpecToken::Keyword(Keyword::By));
        assert(toks.subrange(pos + 2, end) =~= rl) by {
            assert(forall|m: int| 0 <= m < rl.len() ==> #[trigger] frag[2 + m] == rl[m]);
        }
        lemma_parse_expression_list_of_render(toks, pos + 2, ob);
        assert(spec_expect(toks, pos + 1, SpecToken::Keyword(Keyword::By)) == Ok::<
            int,
            SpecParseError,
        >(pos + 2));
    }
}

/// The tokens of the shared tail of both `SELECT` forms.
pub open spec fn render_tail_tokens(
    from: Seq<char>,
    w: Option<SpecExpression>,
    ob: Seq<SpecExpression>,
) -> Seq<SpecToken> {
    seq![SpecToken::Keyword(Keyword::From), SpecToken::Identifier(from)] + render_where_tokens(w)
        + render_orderby_tokens(ob)
}

/// The rendered tail of a `SELECT`, followed by the terminating
/// semicolon, re-parses in full.
proof fn lemma_parse_select_tail_of_render(
    toks: Seq<SpecToken>,
    pos: int,
    from: Seq<char>,
    w: Option<SpecExpression>,
    ob: Seq<SpecExpression>,
)
    requires
        0 <= pos,
        pos + render_tail_tokens(from, w, ob).len() < toks.len(),
        toks.subrange(pos, pos + render_tail_tokens(from, w, ob).len()) == render_tail_tokens(
            from,
            w,
            ob,
        ),
        toks[pos + render_tail_tokens(from, w, ob).len()] == SpecToken::Semicolon,
    ensures
        spec_parse_select_tail(toks, pos) == Ok::<
            ((Seq<char>, Option<SpecExpression>, Seq<SpecExpression>), int),
            SpecParseError,
        >(((from, w, ob), pos + render_tail_tokens(from, w, ob).len())),
{
    let frag = render_tail_tokens(from, w, ob);
    let end = pos + frag.len();
    let wfrag = render_where_tokens(w);
    let obfrag = render_orderby_tokens(ob);
    assert forall|m: int| pos <= m < end implies #[trigger] toks[m] == frag[m - pos] by {
        assert(toks.subrange(pos, end)[m - pos] == toks[m]);
    }
    assert(toks[pos] == SpecToken::Keyword(Keyword::From));
    assert(toks[pos + 1] == SpecToken::Identifier(from));
    let pw = pos + 2;
    let pob = pw + wfrag.len();
    assert(toks.subrange(pw, pob) =~= wfrag) by {
        assert(forall|m: int| 0 <= m < wfrag.len() ==> #[trigger] frag[2 + m] == wfrag[m]);
    }
    assert(toks.subrange(pob, end) =~= obfrag) by {
        assert(forall|m: int|
            0 <= m < obfrag.len() ==> #[trigger] frag[2 + wfrag.len() + m] == obfrag[m]);
    }
    // the token after the where clause: ORDER when a clause follows, the
    // semicolon otherwise; neither continues an expression
    if ob.len() == 0 {
        assert(toks[pob] == SpecToken::Semicolon);
    } else {
        assert(toks[pob] == SpecToken::Keyword(Keyword::Order)) by {
            assert(obfrag[0] == SpecToken::Keyword(Keyword::Order));
        }
    }
    lemma_parse_where_of_render(toks, pw, w);
    // the token after the order-by clause is the semicolon
    assert(toks[end] == SpecToken::Semicolon);
    lemma_parse_orderby_of_render(toks, pob, ob);
    assert(spec_expect(toks, pos, SpecToken::Keyword(Keyword::From)) == Ok::<
        int,
        SpecParseError,
    >(pos + 1));
    assert(spec_parse_identifier(toks, pos + 1) == Ok::<(Seq<char>, int), SpecParseError>(
        (from, pos + 2),
    ));
}

/// A rendered column type re-parses in full.
proof fn lemma_parse_type_of_render(toks: Seq<SpecToken>, pos: int, ty: DBType)
    requires
        0 <= pos,
        pos + render_type_tokens(ty).len() <= toks.len(),
        toks.subrange(pos, pos + render_type_tokens(ty).len()) == render_type_tokens(ty),
        ty matches DBType::Varchar(n) ==> 1 <= n <= 65535,
    ensures
        spec_parse_column_type(toks, pos) == Ok::<(DBType, int), SpecParseError>(
            (ty, pos + render_type_tokens(ty).len()),
        ),
{
    let frag = render_type_tokens(ty);
    let end = pos + frag.len();
    assert forall|m: int| pos <= m < end implies #[trigger] toks[m] == frag[m - pos] by {
        assert(toks.subrange(pos, end)[m - pos] == toks[m]);
    }
    match ty {
        DBType::Int => {},
        DBType::Bool => {},
        DBType::Varchar(n) => {
            assert(toks[pos] == SpecToken::Keyword(Keyword::Varchar));
            assert(toks[pos + 1] == SpecToken::LeftParentheses);
            assert(toks[pos + 2] == SpecToken::Number(n as u64));
            assert(toks[pos + 3] == SpecToken::RightParentheses);
            assert((n as u64) as usize == n);
        },
    }
}

/// A rendered constraint sequence, followed by a token that starts no
/// constraint, re-parses in full.
#[verifier::spinoff_prover]
#[verifier::rlimit(80)]
proof fn lemma_parse_constraints_of_render(toks: Seq<SpecToken>, pos: int, cs: Seq<SpecConstraint>)
    requires
        0 <= pos,
        pos + render_constraints_tokens(cs).len() <= toks.len(),
        toks.subrange(pos, pos + render_constraints_tokens(cs).len())
            == render_constraints_tokens(cs),
        ({
            let p = pos + render_constraints_tokens(cs).len();
            p >= toks.len() || (toks[p] != SpecToken::Keyword(Keyword::Primary) && toks[p]
                != SpecToken::Keyword(Keyword::Not) && toks[p] != SpecToken::Keyword(
                Keyword::Check,
            ))
        }),
    ensures
        spec_parse_constraints(toks, pos) == Ok::<(Seq<SpecConstraint>, int), SpecParseError>(
            (cs, pos + render_constraints_tokens(cs).len()),
        ),
    decreases cs.len(),
{
    let frag = render_constraints_tokens(cs);
    let end = pos + frag.len();
    assert forall|m: int| pos <= m < end implies #[trigger] toks[m] == frag[m - pos] by {
        assert(toks.subrange(pos, end)[m - pos] == toks[m]);
    }
    if cs.len() == 0 {
        assert(cs =~= Seq::<SpecConstraint>::empty());
    } else {
        let c0 = cs[0];
        let rest = cs.drop_first();
        let r0 = render_constraint_tokens(c0);
        let rrest = render_constraints_tokens(rest);
        assert(frag == r0 + rrest);
        let q = pos + r0.len();
        assert(toks.subrange(q, end) =~= rrest) by {
            assert(forall|m: int|
                0 <= m < rrest.len() ==> #[trigger] frag[r0.len() + m] == rrest[m]);
        }
        match c0 {
            SpecConstraint::PrimaryKey => {
                assert(toks[pos] == SpecToken::Keyword(Keyword::Primary));
                assert(toks[pos + 1] == SpecToken::Keyword(Keyword::Key));
                lemma_parse_constraints_of_render(toks, pos + 2, rest);
                assert(seq![SpecConstraint::PrimaryKey] + rest =~= cs);
            },
            SpecConstraint::NotNull => {
                assert(toks[pos] == SpecToken::Keyword(Keyword::Not));
                assert(toks[pos + 1] == SpecToken::Keyword(Keyword::Null));
                lemma_parse_constraints_of_render(toks, pos + 2, rest);
                assert(seq![SpecConstraint::NotNull] + rest =~= cs);
            },
            SpecConstraint::Check(e) => {
                let re = render_expr_tokens(e);
                lemma_render_expr_len(e);
                assert(r0 == seq![
                    SpecToken::Keyword(Keyword::Check),
                    SpecToken::LeftParentheses,
                ] + re + seq![SpecToken::RightParentheses]);
                assert(toks[pos] == SpecToken::Keyword(Keyword::Check));
                assert(toks[pos + 1] == SpecToken::LeftParentheses) by {
                    assert(r0[1] == SpecToken::LeftParentheses);
                }
                let p3 = pos + 2 + re.len();
                assert(toks.subrange(pos + 2, p3) =~= re) by {
                    assert(forall|m: int| 0 <= m < re.len() ==> #[trigger] r0[2 + m] == re[m]);
                }
                assert(toks[p3] == SpecToken::RightParentheses) by {
                    assert(r0[p3 - pos] == SpecToken::RightParentheses);
                }
                lemma_parse_expression_of_render(toks, pos + 2, e, 0);
                assert(spec_expect(toks, p3, SpecToken::RightParentheses) == Ok::<
                    int,
                    SpecParseError,
                >(p3 + 1));
                lemma_parse_constraints_of_render(toks, p3 + 1, rest);
                assert(bounded_next(toks.len() as int, pos, p3 + 1) == p3 + 1);
                assert(seq![SpecConstraint::Check(e)] + rest =~= cs);
            },
        }
    }
}

/// A rendered comma-separated column-definition list, followed by the
/// closing parenthesis, re-parses in full.
#[verifier::spinoff_prover]
#[verifier::rlimit(80)]
proof fn lemma_parse_column_defs_of_render(toks: Seq<SpecToken>, pos: int, cols: Seq<
    SpecTableColumn,
>)
    requires
        0 <= pos,
        cols.len() >= 1,
        forall|i: int| 0 <= i < cols.len() ==> wf_column(#[trigger] cols[i]),
        pos + render_columns_tokens(cols).len() < toks.len(),
        toks.subrange(pos, pos + render_columns_tokens(cols).len()) == render_columns_tokens(
            cols,
        ),
        toks[pos + render_columns_tokens(cols).len()] == SpecToken::RightParentheses,
    ensures
        spec_parse_column_defs(toks, pos) == Ok::<(Seq<SpecTableColumn>, int), SpecParseError>(
            (cols, pos + render_columns_tokens(cols).len()),
        ),
    decreases cols.len(),
{
    let frag = render_columns_tokens(cols);
    let end = pos + frag.len();
    assert forall|m: int| pos <= m < end implies #[trigger] toks[m] == frag[m - pos] by {
        assert(toks.subrange(pos, end)[m - pos] == toks[m]);
    }
    let c0 = cols[0];
    assert(wf_column(c0));
    let r0 = render_column_tokens(c0);
    let tyfrag = render_type_tokens(c0.column_type);
    let consfrag = render_constraints_tokens(c0.constraints);
    assert(r0 == seq![SpecToken::Identifier(c0.column_name)] + tyfrag + consfrag);
    let q = pos + r0.len();
    if cols.len() == 1 {
        assert(frag == r0);
    } else {
        assert(frag == r0 + seq![SpecToken::Comma] + render_columns_tokens(cols.drop_first()));
    }
    assert(toks.subrange(pos, q) =~= r0) by {
        assert(forall|m: int| 0 <= m < r0.len() ==> #[trigger] frag[m] == r0[m]);
    }
    assert forall|m: int| pos <= m < q implies #[trigger] toks[m] == r0[m - pos] by {
        assert(toks.subrange(pos, q)[m - pos] == toks[m]);
    }
    assert(toks[pos] == SpecToken::Identifier(c0.column_name));
    let pty = pos + 1;
    let pcons = pty + tyfrag.len();
    assert(toks.subrange(pty, pcons) =~= tyfrag) by {
        assert(forall|m: int| 0 <= m < tyfrag.len() ==> #[trigger] r0[1 + m] == tyfrag[m]);
    }
    lemma_parse_type_of_render(toks, pty, c0.column_type);
    assert(toks.subrange(pcons, q) =~= consfrag) by {
        assert(forall|m: int|
            0 <= m < consfrag.len() ==> #[trigger] r0[1 + tyfrag.len() + m] == consfrag[m]);
    }
    // the token after the constraints is a comma or the parenthesis, and
    // starts no constraint
    if cols.len() == 1 {
        assert(toks[q] == SpecToken::RightParentheses);
    } else {
        assert(toks[q] == SpecToken::Comma) by {
            assert(frag[q - pos] == SpecToken::Comma);
        }
    }
    lemma_parse_constraints_of_render(toks, pcons, c0.constraints);
    assert(spec_parse_identifier(toks, pos) == Ok::<(Seq<char>, int), SpecParseError>(
        (c0.column_name, pos + 1),
    ));
    assert(bounded_next(toks.len() as int, pos, pcons) == pcons);
    assert(bounded_next(toks.len() as int, pos, q) == q);
    if cols.len() == 1 {
        assert(seq![c0] =~= cols);
    } else {
        let rest = cols.drop_first();
        let rrest = render_columns_tokens(rest);
        assert(toks.subrange(q + 1, end) =~= rrest) by {
            assert(forall|m: int|
                0 <= m < rrest.len() ==> #[trigger] frag[r0.len() + 1 + m] == rrest[m]);
        }
        assert(forall|i: int| 0 <= i < rest.len() ==> wf_column(#[trigger] rest[i])) by {
            assert(forall|i: int| 0 <= i < rest.len() ==> rest[i] == cols[i + 1]);
        }
        lemma_parse_column_defs_of_render(toks, q + 1, rest);
        assert(seq![c0] + rest =~= cols);
    }
}

/// A well-formed statement's rendered tokens, ended by the end marker,
/// parse back to the statement itself.
#[verifier::spinoff_prover]
#[verifier::rlimit(80)]
proof fn lemma_parse_of_rendered_select(s: SpecStatement)
    requires
        wf_statement(s),
        s matches SpecStatement::Select { .. },
    ensures
        spec_parse_tokens(render_statement_tokens(s) + seq![SpecToken::Eof]) == Ok::<
            SpecStatement,
            SpecParseError,
        >(s),
{
    let rs = render_statement_tokens(s);
    let toks = rs + seq![SpecToken::Eof];
    assert forall|m: int| 0 <= m < rs.len() implies #[trigger] toks[m] == rs[m] by {}
    match s {
        SpecStatement::Select { columns, from, where_clause, orderby } => {
            let cfrag = render_exprs_tokens(columns);
            let tailfrag = render_tail_tokens(from, where_clause, orderby);
            assert(rs == seq![SpecToken::Keyword(Keyword::Select)] + cfrag + tailfrag + seq![
                SpecToken::Semicolon,
            ]);
            assert(toks[0] == SpecToken::Keyword(Keyword::Select));
            lemma_render_expr_head(columns[0]);
            assert(cfrag[0] == render_expr_tokens(columns[0])[0]);
            assert(toks[1] == cfrag[0]);
            let pt: int = 1 + cfrag.len() as int;
            let ps: int = pt + tailfrag.len();
            assert(toks.subrange(1, pt) =~= cfrag) by {
                assert(forall|m: int| 0 <= m < cfrag.len() ==> #[trigger] rs[1 + m] == cfrag[m]);
            }
            assert(toks[pt] == SpecToken::Keyword(Keyword::From)) by {
                assert(rs[pt] == tailfrag[0]);
            }
            lemma_parse_expression_list_of_render(toks, 1, columns);
            assert(toks.subrange(pt, ps) =~= tailfrag) by {
                assert(forall|m: int|
                    0 <= m < tailfrag.len() ==> #[trigger] rs[1 + cfrag.len() + m]
                        == tailfrag[m]);
            }
            assert(toks[ps] == SpecToken::Semicolon) by {
                assert(rs[ps] == SpecToken::Semicolon);
            }
            lemma_parse_select_tail_of_render(toks, pt, from, where_clause, orderby);
            assert(spec_expect(toks, ps, SpecToken::Semicolon) == Ok::<int, SpecParseError>(
                ps + 1,
            ));
        },
        _ => {
            assert(false);
        },
    }
}

#[verifier::spinoff_prover]
#[verifier::rlimit(80)]
proof fn lemma_parse_of_rendered_select_all(s: SpecStatement)
    requires
        wf_statement(s),
        s matches SpecStatement::SelectAll { .. },
    ensures
        spec_parse_tokens(render_statement_tokens(s) + seq![SpecToken::Eof]) == Ok::<
            SpecStatement,
            SpecParseError,
        >(s),
{
    let rs = render_statement_tokens(s);
    let toks = rs + seq![SpecToken::Eof];
    assert forall|m: int| 0 <= m < rs.len() implies #[trigger] toks[m] == rs[m] by {}
    match s {
        SpecStatement::SelectAll { from, where_clause, orderby } => {
            let tailfrag = render_tail_tokens(from, where_clause, orderby);
            assert(rs == seq![SpecToken::Keyword(Keyword::Select), SpecToken::Star] + tailfrag
                + seq![SpecToken::Semicolon]);
            assert(toks[0] == SpecToken::Keyword(Keyword::Select));
            assert(toks[1] == SpecToken::Star);
            let ps: int = 2 + tailfrag.len() as int;
            assert(toks.subrange(2, ps) =~= tailfrag) by {
                assert(forall|m: int|
                    0 <= m < tailfrag.len() ==> #[trigger] rs[2 + m] == tailfrag[m]);
            }
            assert(toks[ps] == SpecToken::Semicolon) by {
                assert(rs[ps] == SpecToken::Semicolon);
            }
            lemma_parse_select_tail_of_render(toks, 2, from, where_clause, orderby);
            assert(spec_expect(toks, ps, SpecToken::Semicolon) == Ok::<int, SpecParseError>(
                ps + 1,
            ));
        },
        _ => {
            assert(false);
        },
    }
}

#[verifier::spinoff_prover]
#[verifier::rlimit(80)]
proof fn lemma_parse_of_rendered_create(s: SpecStatement)
    requires
        wf_statement(s),
        s matches SpecStatement::CreateTable { .. },
    ensures
        spec_parse_tokens(render_statement_tokens(s) + seq![SpecToken::Eof]) == Ok::<
            SpecStatement,
            SpecParseError,
        >(s),
{
    let rs = render_statement_tokens(s);
    let toks = rs + seq![SpecToken::Eof];
    assert forall|m: int| 0 <= m < rs.len() implies #[trigger] toks[m] == rs[m] by {}
    match s {
        SpecStatement::CreateTable { table_name, column_list } => {
            let colsfrag = render_columns_tokens(column_list);
            assert(rs == seq![
                SpecToken::Keyword(Keyword::Create),
                SpecToken::Keyword(Keyword::Table),
                SpecToken::Identifier(table_name),
                SpecToken::LeftParentheses,
            ] + colsfrag + seq![SpecToken::RightParentheses, SpecToken::Semicolon]);
            assert(toks[0] == SpecToken::Keyword(Keyword::Create));
            assert(toks[1] == SpecToken::Keyword(Keyword::Table));
            assert(toks[2] == SpecToken::Identifier(table_name));
            assert(toks[3] == SpecToken::LeftParentheses);
            let pr: int = 4 + colsfrag.len() as int;
            assert(toks.subrange(4, pr) =~= colsfrag) by {
                assert(forall|m: int|
                    0 <= m < colsfrag.len() ==> #[trigger] rs[4 + m] == colsfrag[m]);
            }
            assert(toks[pr] == SpecToken::RightParentheses) by {
                assert(rs[pr] == SpecToken::RightParentheses);
            }
            assert(toks[pr + 1] == SpecToken::Semicolon) by {
                assert(rs[pr + 1] == SpecToken::Semicolon);
            }
            lemma_parse_column_defs_of_render(toks, 4, column_list);
            assert(spec_expect(toks, 1, SpecToken::Keyword(Keyword::Table)) == Ok::<
                int,
                SpecParseError,
            >(2));
            assert(spec_parse_identifier(toks, 2) == Ok::<(Seq<char>, int), SpecParseError>(
                (table_name, 3),
            ));
            assert(spec_expect(toks, 3, SpecToken::LeftParentheses) == Ok::<
                int,
                SpecParseError,
            >(4));
            assert(spec_expect(toks, pr, SpecToken::RightParentheses) == Ok::<
                int,
                SpecParseError,
            >(pr + 1));
            assert(spec_expect(toks, pr + 1, SpecToken::Semicolon) == Ok::<
                int,
                SpecParseError,
            >(pr + 2));
        },
        _ => {
            assert(false);
        },
    }
}

/// A well-formed statement's rendered tokens, ended by the end marker,
/// parse back to the statement itself.
pub proof fn lemma_parse_of_rendered_statement(s: SpecStatement)
    requires
        wf_statement(s),
    ensures
        spec_parse_tokens(render_statement_tokens(s) + seq![SpecToken::Eof]) == Ok::<
            SpecStatement,
            SpecParseError,
        >(s),
{
    match s {
        SpecStatement::Select { .. } => lemma_parse_of_rendered_select(s),
        SpecStatement::SelectAll { .. } => lemma_parse_of_rendered_select_all(s),
        SpecStatement::CreateTable { .. } => lemma_parse_of_rendered_create(s),
    }
}

/// The concatenation of renderable token sequences is renderable.
proof fn lemma_renderable_concat(a: Seq<SpecToken>, b: Seq<SpecToken>)
    requires
        renderable_tokens(a),
        renderable_tokens(b),
    ensures
        renderable_tokens(a + b),
{
    assert forall|i: int| 0 <= i < (a + b).len() implies renderable_token(#[trigger] (a + b)[i])
        by {
        if i < a.len() {
            assert((a + b)[i] == a[i]);
        } else {
            assert((a + b)[i] == b[i - a.len()]);
        }
    }
}

/// The rendered tokens of a well-formed expression are renderable.
proof fn lemma_render_expr_renderable(e: SpecExpression)
    requires
        wf_expression(e),
    ensures
        renderable_tokens(render_expr_tokens(e)),
    decreases e,
{
    match e {
        SpecExpression::Number(_) => {},
        SpecExpression::String(_) => {},
        SpecExpression::Bool(_) => {},
        SpecExpression::Identifier(_) => {},
        SpecExpression::BinaryOperation { left_operand, operator, right_operand } => {
            lemma_render_expr_renderable(*left_operand);
            lemma_render_expr_renderable(*right_operand);
            assert(renderable_token(binop_token(operator)));
            lemma_renderable_concat(
                seq![SpecToken::LeftParentheses],
                render_expr_tokens(*left_operand),
            );
            lemma_renderable_concat(
                seq![SpecToken::LeftParentheses] + render_expr_tokens(*left_operand),
                seq![binop_token(operator)],
            );
            lemma_renderable_concat(
                seq![SpecToken::LeftParentheses] + render_expr_tokens(*left_operand) + seq![
                    binop_token(operator),
                ],
                render_expr_tokens(*right_operand),
            );
            lemma_renderable_concat(
                seq![SpecToken::LeftParentheses] + render_expr_tokens(*left_operand) + seq![
                    binop_token(operator),
                ] + render_expr_tokens(*right_operand),
                seq![SpecToken::RightParentheses],
            );
        },
        SpecExpression::UnaryOperation { operator, operand } => {
            lemma_render_expr_renderable(*operand);
            assert(renderable_token(unop_token(operator)));
            if operator == UnaryOperator::Asc || operator == UnaryOperator::Desc {
                lemma_renderable_concat(
                    seq![SpecToken::LeftParentheses],
                    render_expr_tokens(*operand),
                );
                lemma_renderable_concat(
                    seq![SpecToken::LeftParentheses] + render_expr_tokens(*operand),
                    seq![unop_token(operator), SpecToken::RightParentheses],
                );
            } else {
                lemma_renderable_concat(
                    seq![SpecToken::LeftParentheses, unop_token(operator)],
                    render_expr_tokens(*operand),
                );
                lemma_renderable_concat(
                    seq![SpecToken::LeftParentheses, unop_token(operator)]
                        + render_expr_tokens(*operand),
                    seq![SpecToken::RightParentheses],
                );
            }
        },
    }
}

/// The rendered tokens of well-formed expressions are renderable.
proof fn lemma_render_exprs_renderable(es: Seq<SpecExpression>)
    requires
        wf_expressions(es),
    ensures
        renderable_tokens(render_exprs_tokens(es)),
    decreases es.len(),
{
    if es.len() == 0 {
    } else if es.len() == 1 {
        lemma_render_expr_renderable(es[0]);
    } else {
        lemma_render_expr_renderable(es[0]);
        assert(wf_expressions(es.drop_first())) by {
            assert(forall|i: int|
                0 <= i < es.drop_first().len() ==> es.drop_first()[i] == es[i + 1]);
        }
        lemma_render_exprs_renderable(es.drop_first());
        lemma_renderable_concat(render_expr_tokens(es[0]), seq![SpecToken::Comma]);
        lemma_renderable_concat(
            render_expr_tokens(es[0]) + seq![SpecToken::Comma],
            render_exprs_tokens(es.drop_first()),
        );
    }
}

/// The rendered tokens of a well-formed constraint sequence are
/// renderable.
proof fn lemma_render_constraints_renderable(cs: Seq<SpecConstraint>)
    requires
        forall|i: int| 0 <= i < cs.len() ==> wf_constraint(#[trigger] cs[i]),
    ensures
        renderable_tokens(render_constraints_tokens(cs)),
    decreases cs.len(),
{
    if cs.len() > 0 {
        let c0 = cs[0];
        assert(wf_constraint(c0));
        match c0 {
            SpecConstraint::PrimaryKey => {},
            SpecConstraint::NotNull => {},
            SpecConstraint::Check(e) => {
                lemma_render_expr_renderable(e);
                lemma_renderable_concat(
                    seq![SpecToken::Keyword(Keyword::Check), SpecToken::LeftParentheses],
                    render_expr_tokens(e),
                );
                lemma_renderable_concat(
                    seq![SpecToken::Keyword(Keyword::Check), SpecToken::LeftParentheses]
                        + render_expr_tokens(e),
                    seq![SpecToken::RightParentheses],
                );
            },
        }
        assert(forall|i: int|
            0 <= i < cs.drop_first().len() ==> wf_constraint(#[trigger] cs.drop_first()[i]))
            by {
            assert(forall|i: int|
                0 <= i < cs.drop_first().len() ==> cs.drop_first()[i] == cs[i + 1]);
        }
        lemma_render_constraints_renderable(cs.drop_first());
        lemma_renderable_concat(
            render_constraint_tokens(c0),
            render_constraints_tokens(cs.drop_first()),
        );
    }
}

/// The rendered tokens of a well-formed column-definition list are
/// renderable.
proof fn lemma_render_columns_renderable(cols: Seq<SpecTableColumn>)
    requires
        forall|i: int| 0 <= i < cols.len() ==> wf_column(#[trigger] cols[i]),
    ensures
        renderable_tokens(render_columns_tokens(cols)),
    decreases cols.len(),
{
    if cols.len() > 0 {
        let c0 = cols[0];
        assert(wf_column(c0));
        lemma_render_constraints_renderable(c0.constraints);
        lemma_renderable_concat(
            seq![SpecToken::Identifier(c0.column_name)],
            render_type_tokens(c0.column_type),
        );
        lemma_renderable_concat(
            seq![SpecToken::Identifier(c0.column_name)] + render_type_tokens(c0.column_type),
            render_constraints_tokens(c0.constraints),
        );
        if cols.len() > 1 {
            assert(forall|i: int|
                0 <= i < cols.drop_first().len() ==> wf_column(
                    #[trigger] cols.drop_first()[i],
                )) by {
                assert(forall|i: int|
                    0 <= i < cols.drop_first().len() ==> cols.drop_first()[i] == cols[i + 1]);
            }
            lemma_render_columns_renderable(cols.drop_first());
            lemma_renderable_concat(render_column_tokens(c0), seq![SpecToken::Comma]);
            lemma_renderable_concat(
                render_column_tokens(c0) + seq![SpecToken::Comma],
                render_columns_tokens(cols.drop_first()),
            );
        }
    }
}

/// The rendered tokens of the optional clauses are renderable.
proof fn lemma_render_clauses_renderable(w: Option<SpecExpression>, ob: Seq<SpecExpression>)
    requires
        wf_opt_expression(w),
        wf_expressions(ob),
    ensures
        renderable_tokens(render_where_tokens(w)),
        renderable_tokens(render_orderby_tokens(ob)),
{
    match w {
        None => {},
        Some(e) => {
            lemma_render_expr_renderable(e);
            lemma_renderable_concat(
                seq![SpecToken::Keyword(Keyword::Where)],
                render_expr_tokens(e),
            );
        },
    }
    if ob.len() > 0 {
        lemma_render_exprs_renderable(ob);
        lemma_renderable_concat(
            seq![SpecToken::Keyword(Keyword::Order), SpecToken::Keyword(Keyword::By)],
            render_exprs_tokens(ob),
        );
    }
}

/// The rendered tokens of a well-formed statement are renderable.
proof fn lemma_render_statement_renderable(s: SpecStatement)
    requires
        wf_statement(s),
    ensures
        renderable_tokens(render_statement_tokens(s)),
{
    match s {
        SpecStatement::Select { columns, from, where_clause, orderby } => {
            lemma_render_exprs_renderable(columns);
            lemma_render_clauses_renderable(where_clause, orderby);
            lemma_renderable_concat(
                seq![SpecToken::Keyword(Keyword::Select)],
                render_exprs_tokens(columns),
            );
            lemma_renderable_concat(
                seq![SpecToken::Keyword(Keyword::Select)] + render_exprs_tokens(columns),
                seq![SpecToken::Keyword(Keyword::From), SpecToken::Identifier(from)],
            );
            lemma_renderable_concat(
                seq![SpecToken::Keyword(Keyword::Select)] + render_exprs_tokens(columns) + seq![
                    SpecToken::Keyword(Keyword::From),
                    SpecToken::Identifier(from),
                ],
                render_where_tokens(where_clause),
            );
            lemma_renderable_concat(
                seq![SpecToken::Keyword(Keyword::Select)] + render_exprs_tokens(columns) + seq![
                    SpecToken::Keyword(Keyword::From),
                    SpecToken::Identifier(from),
                ] + render_where_tokens(where_clause),
                render_orderby_tokens(orderby),
            );
            lemma_renderable_concat(
                seq![SpecToken::Keyword(Keyword::Select)] + render_exprs_tokens(columns) + seq![
                    SpecToken::Keyword(Keyword::From),
                    SpecToken::Identifier(from),
                ] + render_where_tokens(where_clause) + render_orderby_tokens(orderby),
                seq![SpecToken::Semicolon],
            );
        },
        SpecStatement::SelectAll { from, where_clause, orderby } => {
            lemma_render_clauses_renderable(where_clause, orderby);
            lemma_renderable_concat(
                seq![
                    SpecToken::Keyword(Keyword::Select),
                    SpecToken::Star,
                    SpecToken::Keyword(Keyword::From),
                    SpecToken::Identifier(from),
                ],
                render_where_tokens(where_clause),
            );
            lemma_renderable_concat(
                seq![
                    SpecToken::Keyword(Keyword::Select),
                    SpecToken::Star,
                    SpecToken::Keyword(Keyword::From),
                    SpecToken::Identifier(from),
                ] + render_where_tokens(where_clause),
                render_orderby_tokens(orderby),
            );
            lemma_renderable_concat(
                seq![
                    SpecToken::Keyword(Keyword::Select),
                    SpecToken::Star,
                    SpecToken::Keyword(Keyword::From),
                    SpecToken::Identifier(from),
                ] + render_where_tokens(where_clause) + render_orderby_tokens(orderby),
                seq![SpecToken::Semicolon],
            );
        },
        SpecStatement::CreateTable { table_name, column_list } => {
            lemma_render_columns_renderable(column_list);
            lemma_renderable_concat(
                seq![
                    SpecToken::Keyword(Keyword::Create),
                    SpecToken::Keyword(Keyword::Table),
                    SpecToken::Identifier(table_name),
                    SpecToken::LeftParentheses,
                ],
                render_columns_tokens(column_list),
            );
            lemma_renderable_concat(
                seq![
                    SpecToken::Keyword(Keyword::Create),
                    SpecToken::Keyword(Keyword::Table),
                    SpecToken::Identifier(table_name),
                    SpecToken::LeftParentheses,
                ] + render_columns_tokens(column_list),
                seq![SpecToken::RightParentheses, SpecToken::Semicolon],
            );
        },
    }
}

/// Round trip: parsing the canonical text of a well-formed statement
/// yields exactly that statement.
pub proof fn lemma_render_parse_round_trip(s: SpecStatement)
    requires
        wf_statement(s),
    ensures
        spec_parse(spec_render_statement(s)) == Ok::<SpecStatement, SpecParseError>(s),
{
    let ts = render_statement_tokens(s);
    lemma_render_statement_renderable(s);
    lemma_scan_of_rendered_tokens(ts);
    lemma_parse_of_rendered_statement(s);
}

/// Whether the token could come from the scanner: an identifier token
/// always carries a well-formed identifier.
pub open spec fn wf_token(t: SpecToken) -> bool {
    match t {
        SpecToken::Identifier(s) => wf_ident(s),
        _ => true,
    }
}

/// Whether every token of the sequence is well formed.
pub open spec fn wf_tokens(ts: Seq<SpecToken>) -> bool {
    forall|k: int| 0 <= k < ts.len() ==> wf_token(#[trigger] ts[k])
}

/// Every token a successful scan produces is well formed.
proof fn lemma_scan_tokens_wf(s: Seq<char>, i: int, toks: Seq<SpecToken>)
    requires
        0 <= i <= s.len(),
        spec_scan(s, i) == Ok::<Seq<SpecToken>, TokenizerError>(toks),
    ensures
        wf_tokens(toks),
    decreases s.len() - i, 0int,
{
    if i >= s.len() {
        assert(toks == seq![SpecToken::Eof]);
    } else {
        let c = s[i];
        if is_space_char(c) {
            lemma_scan_tokens_wf(s, i + 1, toks);
        } else if c == '(' || c == ')' || c == ',' || c == ';' || c == '+' || c == '-' || c == '*'
            || c == '/' || c == '=' {
            let t: SpecToken = if c == '(' {
                SpecToken::LeftParentheses
            } else if c == ')' {
                SpecToken::RightParentheses
            } else if c == ',' {
                SpecToken::Comma
            } else if c == ';' {
                SpecToken::Semicolon
            } else if c == '+' {
                SpecToken::Plus
            } else if c == '-' {
                SpecToken::Minus
            } else if c == '*' {
                SpecToken::Star
            } else if c == '/' {
                SpecToken::Divide
            } else {
                SpecToken::Equal
            };
            lemma_scan_wf_step(s, i, i + 1, t, toks);
        } else if c == '>' || c == '<' {
            if i + 1 < s.len() && s[i + 1] == '=' {
                let t: SpecToken = if c == '>' {
                    SpecToken::GreaterThanOrEqual
                } else {
                    SpecToken::LessThanOrEqual
                };
                lemma_scan_wf_step(s, i, i + 2, t, toks);
            } else {
                let t: SpecToken = if c == '>' {
                    SpecToken::GreaterThan
                } else {
                    SpecToken::LessThan
                };
                lemma_scan_wf_step(s, i, i + 1, t, toks);
            }
        } else if c == '!' {
            assert(i + 1 < s.len() && s[i + 1] == '=');
            lemma_scan_wf_step(s, i, i + 2, SpecToken::NotEqual, toks);
        } else if c == '"' || c == '\'' {
            lemma_scan_string_bounds(s, i + 1, c);
            match scan_string(s, i + 1, c) {
                Ok((content, j)) => {
                    lemma_scan_wf_step(s, i, j, SpecToken::String(content), toks);
                },
                Err(_) => {
                    assert(false);
                },
            }
        } else if is_digit_char(c) {
            lemma_digit_run_end(s, i);
            let j = digit_run_end(s, i);
            let t = SpecToken::Number(digits_val(s.subrange(i, j)) as u64);
            lemma_scan_wf_step(s, i, j, t, toks);
        } else if is_ident_start_char(c) {
            lemma_ident_run_end(s, i);
            let j = ident_run_end(s, i);
            let word = s.subrange(i, j);
            assert(j >= i + 1);
            assert(word[0] == s[i]);
            assert(forall|m: int| 0 <= m < word.len() ==> #[trigger] word[m] == s[i + m]);
            let t: SpecToken = match spec_keyword_of(word) {
                Some(k) => SpecToken::Keyword(k),
                None => SpecToken::Identifier(word),
            };
            assert(wf_token(t)) by {
                if spec_keyword_of(word) is None {
                    assert(forall|m: int| 0 <= m < word.len() ==> is_ident_char(word[m]));
                    assert(wf_ident(word));
                }
            }
            lemma_scan_wf_step(s, i, j, t, toks);
        } else {
            assert(false);
        }
    }
}

/// One step of [`lemma_scan_tokens_wf`]: the token produced at `i` is
/// well formed, and the rest follows by induction at `j`.
proof fn lemma_scan_wf_step(s: Seq<char>, i: int, j: int, t: SpecToken, toks: Seq<SpecToken>)
    requires
        0 <= i < j <= s.len(),
        wf_token(t),
        spec_scan(s, i) == Ok::<Seq<SpecToken>, TokenizerError>(toks),
        spec_scan(s, i) == scan_cons(t, spec_scan(s, j)),
    ensures
        wf_tokens(toks),
    decreases s.len() - j, 1int,
{
    match spec_scan(s, j) {
        Ok(rest) => {
            lemma_scan_tokens_wf(s, j, rest);
            assert(toks == seq![t] + rest);
            assert forall|k: int| 0 <= k < toks.len() implies wf_token(#[trigger] toks[k]) by {
                if k == 0 {
                    assert(toks[0] == t);
                } else {
                    assert(toks[k] == rest[k - 1]);
                }
            }
        },
        Err(_) => {
            assert(false);
        },
    }
}

/// A prefix term parsed from well-formed tokens is well formed and moves
/// the cursor strictly forward.
proof fn lemma_parse_prefix_wf(toks: Seq<SpecToken>, pos: int)
    requires
        wf_tokens(toks),
        0 <= pos <= toks.len(),
    ensures
        spec_parse_prefix(toks, pos) matches Ok((e, p)) ==> wf_expression(e) && pos < p
            <= toks.len(),
    decreases toks.len() - pos, 0int,
{
    if pos < toks.len() {
        match toks[pos] {
            SpecToken::Identifier(_) => {
                assert(wf_token(toks[pos]));
            },
            SpecToken::LeftParentheses => {
                lemma_parse_expression_wf(toks, pos + 1, 0);
            },
            SpecToken::Minus => {
                lemma_parse_expression_wf(toks, pos + 1, UNARY_PRECEDENCE);
            },
            SpecToken::Plus => {
                lemma_parse_expression_wf(toks, pos + 1, UNARY_PRECEDENCE);
            },
            SpecToken::Keyword(Keyword::Not) => {
                lemma_parse_expression_wf(toks, pos + 1, UNARY_PRECEDENCE);
            },
            _ => {},
        }
    }
}

/// One infix step over well-formed tokens keeps the expression well
/// formed.
proof fn lemma_parse_infix_wf(toks: Seq<SpecToken>, pos: int, left: SpecExpression, precedence: u8)
    requires
        wf_tokens(toks),
        0 <= pos <= toks.len(),
        wf_expression(left),
    ensures
        spec_parse_infix(toks, pos, left, precedence) matches Ok((e, p)) ==> wf_expression(e)
            && pos < p <= toks.len(),
    decreases toks.len() - pos, 1int,
{
    if pos < toks.len() {
        match spec_binop_of(toks[pos]) {
            Some(_op) => {
                lemma_parse_expression_wf(toks, pos + 1, precedence);
            },
            None => {},
        }
    }
}

/// The climbing loop over well-formed tokens keeps the expression well
/// formed.
proof fn lemma_parse_infix_chain_wf(
    toks: Seq<SpecToken>,
    pos: int,
    left: SpecExpression,
    min_prec: u8,
)
    requires
        wf_tokens(toks),
        0 <= pos <= toks.len(),
        wf_expression(left),
    ensures
        spec_parse_infix_chain(toks, pos, left, min_prec) matches Ok((e, p)) ==> wf_expression(e)
            && pos <= p <= toks.len(),
    decreases toks.len() - pos, 2int,
{
    if pos < toks.len() {
        match spec_binop_of(toks[pos]) {
            Some(op) => {
                if spec_binop_precedence(op) > min_prec {
                    lemma_parse_infix_wf(toks, pos, left, spec_binop_precedence(op));
                    match spec_parse_infix(toks, pos, left, spec_binop_precedence(op)) {
                        Ok((node, p2)) => {
                            lemma_parse_infix_chain_wf(
                                toks,
                                bounded_next(toks.len() as int, pos, p2),
                                node,
                                min_prec,
                            );
                        },
                        Err(_) => {},
                    }
                }
            },
            None => {},
        }
    }
}

/// A full expression parsed from well-formed tokens is well formed and
/// moves the cursor strictly forward.
proof fn lemma_parse_expression_wf(toks: Seq<SpecToken>, pos: int, min_prec: u8)
    requires
        wf_tokens(toks),
        0 <= pos <= toks.len(),
    ensures
        spec_parse_expression(toks, pos, min_prec) matches Ok((e, p)) ==> wf_expression(e) && pos
            < p <= toks.len(),
    decreases toks.len() - pos, 3int,
{
    if pos < toks.len() {
        lemma_parse_prefix_wf(toks, pos);
        match spec_parse_prefix(toks, pos) {
            Ok((left, p1)) => {
                lemma_parse_infix_chain_wf(
                    toks,
                    bounded_next(toks.len() as int, pos, p1),
                    left,
                    min_prec,
                );
            },
            Err(_) => {},
        }
    }
}

/// An expression list parsed from well-formed tokens is non-empty, well
/// formed, and moves the cursor strictly forward.
proof fn lemma_parse_expression_list_wf(toks: Seq<SpecToken>, pos: int)
    requires
        wf_tokens(toks),
        0 <= pos <= toks.len(),
    ensures
        spec_parse_expression_list(toks, pos) matches Ok((es, p)) ==> es.len() >= 1
            && wf_expressions(es) && pos < p <= toks.len(),
    decreases toks.len() - pos,
{
    if pos < toks.len() {
        lemma_parse_expression_wf(toks, pos, 0);
        match spec_parse_expression(toks, pos, 0) {
            Ok((e, p1)) => {
                let q = bounded_next(toks.len() as int, pos, p1);
                if q < toks.len() && toks[q] == SpecToken::Comma {
                    lemma_parse_expression_list_wf(toks, q + 1);
                    match spec_parse_expression_list(toks, q + 1) {
                        Ok((rest, _p2)) => {
                            assert forall|m: int|
                                0 <= m < (seq![e] + rest).len() implies wf_expression(
                                #[trigger] (seq![e] + rest)[m],
                            ) by {
                                if m == 0 {
                                    assert((seq![e] + rest)[0] == e);
                                } else {
                                    assert((seq![e] + rest)[m] == rest[m - 1]);
                                }
                            }
                        },
                        Err(_) => {},
                    }
                } else {
                    assert(wf_expressions(seq![e])) by {
                        assert(seq![e][0] == e);
                    }
                }
            },
            Err(_) => {},
        }
    }
}

/// The optional clauses parsed from well-formed tokens are well formed.
proof fn lemma_parse_clauses_wf(toks: Seq<SpecToken>, pos: int)
    requires
        wf_tokens(toks),
        0 <= pos <= toks.len(),
    ensures
        spec_parse_where(toks, pos) matches Ok((w, p)) ==> wf_opt_expression(w) && pos <= p
            <= toks.len(),
        spec_parse_orderby(toks, pos) matches Ok((ob, p)) ==> wf_expressions(ob) && pos <= p
            <= toks.len(),
{
    if pos < toks.len() && toks[pos] == SpecToken::Keyword(Keyword::Where) {
        lemma_parse_expression_wf(toks, pos + 1, 0);
    }
    if pos < toks.len() && toks[pos] == SpecToken::Keyword(Keyword::Order) {
        if pos + 1 < toks.len() && toks[pos + 1] == SpecToken::Keyword(Keyword::By) {
            lemma_parse_expression_list_wf(toks, pos + 2);
        }
    }
}

/// The shared tail of a `SELECT` parsed from well-formed tokens is well
/// formed.
proof fn lemma_parse_select_tail_wf(toks: Seq<SpecToken>, pos: int)
    requires
        wf_tokens(toks),
        0 <= pos <= toks.len(),
    ensures
        spec_parse_select_tail(toks, pos) matches Ok(((from, w, ob), p)) ==> wf_ident(from)
            && wf_opt_expression(w) && wf_expressions(ob) && pos < p <= toks.len(),
{
    match spec_expect(toks, pos, SpecToken::Keyword(Keyword::From)) {
        Ok(p1) => {
            match spec_parse_identifier(toks, p1) {
                Ok((_name, p2)) => {
                    assert(wf_token(toks[p1]));
                    lemma_parse_clauses_wf(toks, p2);
                    match spec_parse_where(toks, p2) {
                        Ok((_w, p3)) => {
                            lemma_parse_clauses_wf(toks, p3);
                        },
                        Err(_) => {},
                    }
                },
                Err(_) => {},
            }
        },
        Err(_) => {},
    }
}

/// A column type parsed from any tokens lies in its domain.
proof fn lemma_parse_column_type_wf(toks: Seq<SpecToken>, pos: int)
    requires
        0 <= pos <= toks.len(),
    ensures
        spec_parse_column_type(toks, pos) matches Ok((ty, p)) ==> (ty matches DBType::Varchar(n)
            ==> 1 <= n <= 65535) && pos < p <= toks.len(),
{
}

/// Constraints parsed from well-formed tokens are well formed.
proof fn lemma_parse_constraints_wf(toks: Seq<SpecToken>, pos: int)
    requires
        wf_tokens(toks),
        0 <= pos <= toks.len(),
    ensures
        spec_parse_constraints(toks, pos) matches Ok((cs, p)) ==> (forall|m: int|
            0 <= m < cs.len() ==> wf_constraint(#[trigger] cs[m])) && pos <= p <= toks.len(),
    decreases toks.len() - pos,
{
    if pos < toks.len() {
        match toks[pos] {
            SpecToken::Keyword(Keyword::Primary) => {
                if pos + 1 < toks.len() && toks[pos + 1] == SpecToken::Keyword(Keyword::Key) {
                    lemma_parse_constraints_wf(toks, pos + 2);
                    match spec_parse_constraints(toks, pos + 2) {
                        Ok((rest, _p2)) => {
                            lemma_constraint_cons_wf(SpecConstraint::PrimaryKey, rest);
                        },
                        Err(_) => {},
                    }
                }
            },
            SpecToken::Keyword(Keyword::Not) => {
                if pos + 1 < toks.len() && toks[pos + 1] == SpecToken::Keyword(Keyword::Null) {
                    lemma_parse_constraints_wf(toks, pos + 2);
                    match spec_parse_constraints(toks, pos + 2) {
                        Ok((rest, _p2)) => {
                            lemma_constraint_cons_wf(SpecConstraint::NotNull, rest);
                        },
                        Err(_) => {},
                    }
                }
            },
            SpecToken::Keyword(Keyword::Check) => {
                if pos + 1 < toks.len() && toks[pos + 1] == SpecToken::LeftParentheses {
                    lemma_parse_expression_wf(toks, pos + 2, 0);
                    match spec_parse_expression(toks, pos + 2, 0) {
                        Ok((e, p3)) => {
                            match spec_expect(toks, p3, SpecToken::RightParentheses) {
                                Ok(p4) => {
                                    let q = bounded_next(toks.len() as int, pos, p4);
                                    lemma_parse_constraints_wf(toks, q);
                                    match spec_parse_constraints(toks, q) {
                                        Ok((rest, _p5)) => {
                                            lemma_constraint_cons_wf(
                                                SpecConstraint::Check(e),
                                                rest,
                                            );
                                        },
                                        Err(_) => {},
                                    }
                                },
                                Err(_) => {},
                            }
                        },
                        Err(_) => {},
                    }
                }
            },
            _ => {},
        }
    }
}

/// Putting a well-formed constraint in front of well-formed constraints
/// keeps them all well formed.
proof fn lemma_constraint_cons_wf(c: SpecConstraint, rest: Seq<SpecConstraint>)
    requires
        wf_constraint(c),
        forall|m: int| 0 <= m < rest.len() ==> wf_constraint(#[trigger] rest[m]),
    ensures
        forall|m: int|
            0 <= m < (seq![c] + rest).len() ==> wf_constraint(#[trigger] (seq![c] + rest)[m]),
{
    assert forall|m: int| 0 <= m < (seq![c] + rest).len() implies wf_constraint(
        #[trigger] (seq![c] + rest)[m],
    ) by {
        if m == 0 {
            assert((seq![c] + rest)[0] == c);
        } else {
            assert((seq![c] + rest)[m] == rest[m - 1]);
        }
    }
}

/// Column definitions parsed from well-formed tokens are non-empty and
/// well formed.
proof fn lemma_parse_column_defs_wf(toks: Seq<SpecToken>, pos: int)
    requires
        wf_tokens(toks),
        0 <= pos <= toks.len(),
    ensures
        spec_parse_column_defs(toks, pos) matches Ok((cols, p)) ==> cols.len() >= 1 && (forall|
            m: int,
        | 0 <= m < cols.len() ==> wf_column(#[trigger] cols[m])) && pos < p <= toks.len(),
    decreases toks.len() - pos,
{
    match spec_parse_identifier(toks, pos) {
        Ok((name, p1)) => {
            assert(wf_token(toks[pos]));
            lemma_parse_column_type_wf(toks, p1);
            match spec_parse_column_type(toks, p1) {
                Ok((ty, p2)) => {
                    let pc = bounded_next(toks.len() as int, pos, p2);
                    lemma_parse_constraints_wf(toks, pc);
                    match spec_parse_constraints(toks, pc) {
                        Ok((cons, p3)) => {
                            let col = SpecTableColumn {
                                column_name: name,
                                column_type: ty,
                                constraints: cons,
                            };
                            assert(wf_column(col));
                            let q = bounded_next(toks.len() as int, pos, p3);
                            if q < toks.len() && toks[q] == SpecToken::Comma {
                                lemma_parse_column_defs_wf(toks, q + 1);
                                match spec_parse_column_defs(toks, q + 1) {
                                    Ok((rest, _p4)) => {
                                        assert forall|m: int|
                                            0 <= m < (seq![col] + rest).len() implies wf_column(
                                            #[trigger] (seq![col] + rest)[m],
                                        ) by {
                                            if m == 0 {
                                                assert((seq![col] + rest)[0] == col);
                                            } else {
                                                assert((seq![col] + rest)[m] == rest[m - 1]);
                                            }
                                        }
                                    },
                                    Err(_) => {},
                                }
                            } else {
                                assert(seq![col][0] == col);
                            }
                        },
                        Err(_) => {},
                    }
                },
                Err(_) => {},
            }
        },
        Err(_) => {},
    }
}

/// A statement parsed from well-formed tokens is well formed.
proof fn lemma_parse_tokens_wf(toks: Seq<SpecToken>)
    requires
        wf_tokens(toks),
    ensures
        spec_parse_tokens(toks) matches Ok(s) ==> wf_statement(s),
{
    if toks.len() >= 1 {
        if toks[0] == SpecToken::Keyword(Keyword::Select) {
            if 1 < toks.len() && toks[1] == SpecToken::Star {
                lemma_parse_select_tail_wf(toks, 2);
            } else {
                lemma_parse_expression_list_wf(toks, 1);
                match spec_parse_expression_list(toks, 1) {
                    Ok((_cols, p1)) => {
                        lemma_parse_select_tail_wf(toks, p1);
                    },
                    Err(_) => {},
                }
            }
        } else if toks[0] == SpecToken::Keyword(Keyword::Create) {
            match spec_expect(toks, 1, SpecToken::Keyword(Keyword::Table)) {
                Ok(p1) => {
                    match spec_parse_identifier(toks, p1) {
                        Ok((_name, p2)) => {
                            assert(wf_token(toks[p1]));
                            match spec_expect(toks, p2, SpecToken::LeftParentheses) {
                                Ok(p3) => {
                                    lemma_parse_column_defs_wf(toks, p3);
                                },
                                Err(_) => {},
                            }
                        },
                        Err(_) => {},
                    }
                },
                Err(_) => {},
            }
        }
    }
}

/// Every statement a successful parse returns is well formed.
pub proof fn lemma_parse_results_well_formed(text: Seq<char>, s: SpecStatement)
    requires
        spec_parse(text) == Ok::<SpecStatement, SpecParseError>(s),
    ensures
        wf_statement(s),
{
    match spec_scan(text, 0) {
        Ok(toks) => {
            lemma_scan_tokens_wf(text, 0, toks);
            lemma_parse_tokens_wf(toks);
        },
        Err(_) => {
            assert(false);
        },
    }
}

/// Idempotence of the canonical form: rendering a successfully parsed
/// statement and parsing the rendered text yields the same statement
/// again.
pub proof fn lemma_parse_render_parse(text: Seq<char>, s: SpecStatement)
    requires
        spec_parse(text) == Ok::<SpecStatement, SpecParseError>(s),
    ensures
        spec_parse(spec_render_statement(s)) == Ok::<SpecStatement, SpecParseError>(s),
{
    lemma_parse_results_well_formed(text, s);
    lemma_render_parse_round_trip(s);
}

} // verus!
