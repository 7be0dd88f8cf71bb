//! Token types for the SQL scanner, their mathematical views, and the
//! keyword table.

use vstd::prelude::*;

verus! {

/// A reserved word of the SQL subset.
#[derive(Debug, Clone, Copy, PartialEq, Eq, Structural)]
pub enum Keyword {
    Select,
    Create,
    Table,
    Where,
    Order,
    By,
    Asc,
    Desc,
    From,
    And,
    Or,
    Not,
    True,
    False,
    Primary,
    Key,
    Check,
    Int,
    Bool,
    Varchar,
    Null,
}

/// One lexical unit of the input text.
#[derive(Debug, Clone, PartialEq)]
pub enum Token {
    Keyword(Keyword),
    Identifier(String),
    String(String),
    Number(u64),
    Invalid(char),
    RightParentheses,
    LeftParentheses,
    GreaterThan,
    GreaterThanOrEqual,
    LessThan,
    LessThanOrEqual,
    Equal,
    NotEqual,
    Star,
    Divide,
    Minus,
    Plus,
    Comma,
    Semicolon,
    Eof,
}

/// The mathematical value of a [`Token`]: owned text is seen as its
/// character sequence.
pub enum SpecToken {
    Keyword(Keyword),
    Identifier(Seq<char>),
    String(Seq<char>),
    Number(u64),
    Invalid(char),
    RightParentheses,
    LeftParentheses,
    GreaterThan,
    GreaterThanOrEqual,
    LessThan,
    LessThanOrEqual,
    Equal,
    NotEqual,
    Star,
    Divide,
    Minus,
    Plus,
    Comma,
    Semicolon,
    Eof,
}

impl DeepView for Token {
    type V = SpecToken;

    open spec fn deep_view(&self) -> SpecToken {
        match self {
            Token::Keyword(k) => SpecToken::Keyword(*k),
            Token::Identifier(s) => SpecToken::Identifier(s@),
            Token::String(s) => SpecToken::String(s@),
            Token::Number(n) => SpecToken::Number(*n),
            Token::Invalid(c) => SpecToken::Invalid(*c),
            Token::RightParentheses => SpecToken::RightParentheses,
            Token::LeftParentheses => SpecToken::LeftParentheses,
            Token::GreaterThan => SpecToken::GreaterThan,
            Token::GreaterThanOrEqual => SpecToken::GreaterThanOrEqual,
            Token::LessThan => SpecToken::LessThan,
            Token::LessThanOrEqual => SpecToken::LessThanOrEqual,
            Token::Equal => SpecToken::Equal,
            Token::NotEqual => SpecToken::NotEqual,
            Token::Star => SpecToken::Star,
            Token::Divide => SpecToken::Divide,
            Token::Minus => SpecToken::Minus,
            Token::Plus => SpecToken::Plus,
            Token::Comma => SpecToken::Comma,
            Token::Semicolon => SpecToken::Semicolon,
            Token::Eof => SpecToken::Eof,
        }
    }
}

impl Token {
    /// A copy of the token, equal to it in mathematical value.
    pub fn duplicate(&self) -> (r: Token)
        ensures
            r.deep_view() == self.deep_view(),
    {
        match self {
            Token::Keyword(k) => Token::Keyword(*k),
            Token::Identifier(s) => Token::Identifier(s.clone()),
            Token::String(s) => Token::String(s.clone()),
            Token::Number(n) => Token::Number(*n),
            Token::Invalid(c) => Token::Invalid(*c),
            Token::RightParentheses => Token::RightParentheses,
            Token::LeftParentheses => Token::LeftParentheses,
            Token::GreaterThan => Token::GreaterThan,
            Token::GreaterThanOrEqual => Token::GreaterThanOrEqual,
            Token::LessThan => Token::LessThan,
            Token::LessThanOrEqual => Token::LessThanOrEqual,
            Token::Equal => Token::Equal,
            Token::NotEqual => Token::NotEqual,
            Token::Star => Token::Star,
            Token::Divide => Token::Divide,
            Token::Minus => Token::Minus,
            Token::Plus => Token::Plus,
            Token::Comma => Token::Comma,
            Token::Semicolon => Token::Semicolon,
            Token::Eof => Token::Eof,
        }
    }

    /// Whether the two tokens have the same mathematical value.
    pub fn matches(&self, other: &Token) -> (r: bool)
        ensures
            r == (self.deep_view() == other.deep_view()),
    {
        match (self, other) {
            (Token::Keyword(a), Token::Keyword(b)) => a == b,
            (Token::Identifier(a), Token::Identifier(b)) => a.eq(b),
            (Token::String(a), Token::String(b)) => a.eq(b),
            (Token::Number(a), Token::Number(b)) => a == b,
            (Token::Invalid(a), Token::Invalid(b)) => a == b,
            (Token::RightParentheses, Token::RightParentheses) => true,
            (Token::LeftParentheses, Token::LeftParentheses) => true,
            (Token::GreaterThan, Token::GreaterThan) => true,
            (Token::GreaterThanOrEqual, Token::GreaterThanOrEqual) => true,
            (Token::LessThan, Token::LessThan) => true,
            (Token::LessThanOrEqual, Token::LessThanOrEqual) => true,
            (Token::Equal, Token::Equal) => true,
            (Token::NotEqual, Token::NotEqual) => true,
            (Token::Star, Token::Star) => true,
            (Token::Divide, Token::Divide) => true,
            (Token::Minus, Token::Minus) => true,
            (Token::Plus, Token::Plus) => true,
            (Token::Comma, Token::Comma) => true,
            (Token::Semicolon, Token::Semicolon) => true,
            (Token::Eof, Token::Eof) => true,
            _ => false,
        }
    }
}

/// Whether `c` is one of the whitespace characters the scanner skips.
pub open spec fn is_space_char(c: char) -> bool {
    c == ' ' || c == '\t' || c == '\n'
}

/// Whether `c` is a decimal digit.
pub open spec fn is_digit_char(c: char) -> bool {
    48 <= c as u32 && c as u32 <= 57
}

/// Whether `c` may start an identifier: an ASCII letter or an underscore.
pub open spec fn is_ident_start_char(c: char) -> bool {
    (97 <= c as u32 && c as u32 <= 122) || (65 <= c as u32 && c as u32 <= 90) || c == '_'
}

/// Whether `c` may continue an identifier: an ASCII letter, a decimal
/// digit, or an underscore.
pub open spec fn is_ident_char(c: char) -> bool {
    is_ident_start_char(c) || is_digit_char(c)
}

/// ASCII case folding: an upper-case ASCII letter becomes lower case and
/// every other character is unchanged.
pub open spec fn fold_char(c: char) -> char {
    if 65 <= c as u32 && c as u32 <= 90 {
        ((c as u32) + 32) as char
    } else {
        c
    }
}

/// ASCII case folding of a whole character sequence.
pub open spec fn fold_chars(s: Seq<char>) -> Seq<char> {
    s.map_values(|c: char| fold_char(c))
}

/// The keyword table: the keyword whose name the case-folded word spells,
/// if any.
pub open spec fn spec_keyword_of(word: Seq<char>) -> Option<Keyword> {
    let w = fold_chars(word);
    if w == "select"@ {
        Some(Keyword::Select)
    } else if w == "from"@ {
        Some(Keyword::From)
    } else if w == "where"@ {
        Some(Keyword::Where)
    } else if w == "order"@ {
        Some(Keyword::Order)
    } else if w == "by"@ {
        Some(Keyword::By)
    } else if w == "create"@ {
        Some(Keyword::Create)
    } else if w == "table"@ {
        Some(Keyword::Table)
    } else if w == "int"@ {
        Some(Keyword::Int)
    } else if w == "varchar"@ {
        Some(Keyword::Varchar)
    } else if w == "bool"@ {
        Some(Keyword::Bool)
    } else if w == "primary"@ {
        Some(Keyword::Primary)
    } else if w == "key"@ {
        Some(Keyword::Key)
    } else if w == "not"@ {
        Some(Keyword::Not)
    } else if w == "null"@ {
        Some(Keyword::Null)
    } else if w == "check"@ {
        Some(Keyword::Check)
    } else if w == "true"@ {
        Some(Keyword::True)
    } else if w == "false"@ {
        Some(Keyword::False)
    } else if w == "and"@ {
        Some(Keyword::And)
    } else if w == "or"@ {
        Some(Keyword::Or)
    } else if w == "asc"@ {
        Some(Keyword::Asc)
    } else if w == "desc"@ {
        Some(Keyword::Desc)
    } else {
        None
    }
}

/// The characters of `s`, in order.
pub(crate) fn chars_of(s: &str) -> (v: Vec<char>)
    ensures
        v@ == s@,
{
    broadcast use vstd::string::axiom_spec_iter;
    broadcast use vstd::string::next_postcondition;

    let mut it = s.chars();
    let mut v: Vec<char> = Vec::new();
    loop
        invariant
            vstd::std_specs::iter::IteratorSpec::obeys_prophetic_iter_laws(&it),
            v@ + vstd::std_specs::iter::IteratorSpec::remaining(&it) == s@,
        ensures
            v@ == s@,
        decreases s@.len() - v@.len(),
    {
        match it.next() {
            Some(c) => {
                v.push(c);
                proof {
                    assert(v@ + vstd::std_specs::iter::IteratorSpec::remaining(&it) =~= s@);
                }
            },
            None => {
                proof {
                    assert(v@ =~= s@);
                }
                break ;
            },
        }
    }
    v
}

/// Relies on std's `FromIterator<char>` for `String`: collecting the
/// characters of the vector yields the string made of exactly those
/// characters, in order.
#[verifier::external_body]
pub(crate) fn string_from_chars(v: &Vec<char>) -> (r: String)
    ensures
        r@ == v@,
{
    v.iter().collect()
}

/// ASCII case folding of one character, executably.
fn fold_char_exec(c: char) -> (r: char)
    ensures
        r == fold_char(c),
{
    let u = c as u32;
    if 65 <= u && u <= 90 {
        ((u + 32) as u8) as char
    } else {
        c
    }
}

/// ASCII case folding of a word, executably.
fn fold_chars_exec(word: &Vec<char>) -> (r: Vec<char>)
    ensures
        r@ == fold_chars(word@),
{
    let mut r: Vec<char> = Vec::new();
    let mut i: usize = 0;
    while i < word.len()
        invariant
            i <= word.len(),
            r@ =~= fold_chars(word@).take(i as int),
        decreases word.len() - i,
    {
        r.push(fold_char_exec(word[i]));
        i = i + 1;
        proof {
            assert(r@ =~= fold_chars(word@).take(i as int));
        }
    }
    proof {
        assert(fold_chars(word@).take(word@.len() as int) =~= fold_chars(word@));
    }
    r
}

/// Looks the word up in the keyword table, case-insensitively.
pub fn keyword_of(word: &Vec<char>) -> (r: Option<Keyword>)
    ensures
        r == spec_keyword_of(word@),
{
    let folded = fold_chars_exec(word);
    let w = string_from_chars(&folded);
    if w.eq(&"select".to_owned()) {
        Some(Keyword::Select)
    } else if w.eq(&"from".to_owned()) {
        Some(Keyword::From)
    } else if w.eq(&"where".to_owned()) {
        Some(Keyword::Where)
    } else if w.eq(&"order".to_owned()) {
        Some(Keyword::Order)
    } else if w.eq(&"by".to_owned()) {
        Some(Keyword::By)
    } else if w.eq(&"create".to_owned()) {
        Some(Keyword::Create)
    } else if w.eq(&"table".to_owned()) {
        Some(Keyword::Table)
    } else if w.eq(&"int".to_owned()) {
        Some(Keyword::Int)
    } else if w.eq(&"varchar".to_owned()) {
        Some(Keyword::Varchar)
    } else if w.eq(&"bool".to_owned()) {
        Some(Keyword::Bool)
    } else if w.eq(&"primary".to_owned()) {
        Some(Keyword::Primary)
    } else if w.eq(&"key".to_owned()) {
        Some(Keyword::Key)
    } else if w.eq(&"not".to_owned()) {
        Some(Keyword::Not)
    } else if w.eq(&"null".to_owned()) {
        Some(Keyword::Null)
    } else if w.eq(&"check".to_owned()) {
        Some(Keyword::Check)
    } else if w.eq(&"true".to_owned()) {
        Some(Keyword::True)
    } else if w.eq(&"false".to_owned()) {
        Some(Keyword::False)
    } else if w.eq(&"and".to_owned()) {
        Some(Keyword::And)
    } else if w.eq(&"or".to_owned()) {
        Some(Keyword::Or)
    } else if w.eq(&"asc".to_owned()) {
        Some(Keyword::Asc)
    } else if w.eq(&"desc".to_owned()) {
        Some(Keyword::Desc)
    } else {
        None
    }
}

} // verus!
