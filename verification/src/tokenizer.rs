//! The scanner: one left-to-right, error-terminating pass that turns the
//! input characters into a token sequence ending in a single end marker.
//!
//! The function [`spec_scan`] is the mathematical description of the pass;
//! [`Tokenizer::tokenize`] is proved to return exactly its value.

use vstd::prelude::*;

use crate::token::{
    chars_of, is_digit_char, is_ident_char, is_ident_start_char, is_space_char, keyword_of,
    spec_keyword_of, string_from_chars, SpecToken, Token,
};

verus! {

/// An error of the scanner.
#[derive(Debug, Clone, Copy, PartialEq, Eq)]
pub enum TokenizerError {
    /// A string literal was opened but its closing quote never came.
    UnterminatedString,
    /// A character that no scanner rule accepts, including a lone `!`.
    UnexpectedChar(char),
    /// A digit run whose value does not fit the unsigned 64-bit domain.
    InvalidNumber,
}

/// The end of the maximal run of decimal digits starting at `i`.
pub open spec fn digit_run_end(s: Seq<char>, i: int) -> int
    decreases s.len() - i when 0 <= i <= s.len()
{
    if i < s.len() && is_digit_char(s[i]) {
        digit_run_end(s, i + 1)
    } else {
        i
    }
}

/// The end of the maximal run of identifier characters starting at `i`.
pub open spec fn ident_run_end(s: Seq<char>, i: int) -> int
    decreases s.len() - i when 0 <= i <= s.len()
{
    if i < s.len() && is_ident_char(s[i]) {
        ident_run_end(s, i + 1)
    } else {
        i
    }
}

/// The numeric value of `c`, a decimal digit.
pub open spec fn digit_val(c: char) -> int {
    (c as u32) - 48
}

/// The value of a run of decimal digits read in base ten.
pub open spec fn digits_val(s: Seq<char>) -> int
    decreases s.len(),
{
    if s.len() == 0 {
        0
    } else {
        digits_val(s.drop_last()) * 10 + digit_val(s.last())
    }
}

/// The body of a string literal from position `i` on (the opening quote
/// already consumed): the content up to the matching quote, and the
/// position just past that quote. A backslash escapes the character after
/// it, which is taken verbatim; this covers the quote character and the
/// backslash itself. Input ending before the matching quote is an error.
pub open spec fn scan_string(s: Seq<char>, i: int, quote: char) -> Result<
    (Seq<char>, int),
    TokenizerError,
>
    decreases s.len() - i when 0 <= i <= s.len()
{
    if i >= s.len() {
        Err(TokenizerError::UnterminatedString)
    } else if s[i] == quote {
        Ok((Seq::empty(), i + 1))
    } else if s[i] == '\\' {
        if i + 1 >= s.len() {
            Err(TokenizerError::UnterminatedString)
        } else {
            match scan_string(s, i + 2, quote) {
                Ok((cs, j)) => Ok((seq![s[i + 1]] + cs, j)),
                Err(e) => Err(e),
            }
        }
    } else {
        match scan_string(s, i + 1, quote) {
            Ok((cs, j)) => Ok((seq![s[i]] + cs, j)),
            Err(e) => Err(e),
        }
    }
}

/// Bounds of [`digit_run_end`]: the run stays inside the input, consists
/// of digits, and ends at the first non-digit.
pub proof fn lemma_digit_run_end(s: Seq<char>, i: int)
    requires
        0 <= i <= s.len(),
    ensures
        i <= digit_run_end(s, i) <= s.len(),
        forall|k: int| i <= k < digit_run_end(s, i) ==> is_digit_char(s[k]),
        digit_run_end(s, i) < s.len() ==> !is_digit_char(s[digit_run_end(s, i)]),
    decreases s.len() - i,
{
    if i < s.len() && is_digit_char(s[i]) {
        lemma_digit_run_end(s, i + 1);
    }
}

/// Bounds of [`ident_run_end`]: the run stays inside the input, consists
/// of identifier characters, and ends at the first other character.
pub proof fn lemma_ident_run_end(s: Seq<char>, i: int)
    requires
        0 <= i <= s.len(),
    ensures
        i <= ident_run_end(s, i) <= s.len(),
        forall|k: int| i <= k < ident_run_end(s, i) ==> is_ident_char(s[k]),
        ident_run_end(s, i) < s.len() ==> !is_ident_char(s[ident_run_end(s, i)]),
    decreases s.len() - i,
{
    if i < s.len() && is_ident_char(s[i]) {
        lemma_ident_run_end(s, i + 1);
    }
}

/// A run of digit characters ends at the same place wherever inside it
/// the measurement starts.
pub proof fn lemma_digit_run_end_step(s: Seq<char>, i: int, k: int)
    requires
        0 <= i <= k <= s.len(),
        forall|m: int| i <= m < k ==> is_digit_char(s[m]),
    ensures
        digit_run_end(s, i) == digit_run_end(s, k),
    decreases k - i,
{
    if i < k {
        assert(is_digit_char(s[i]));
        lemma_digit_run_end_step(s, i + 1, k);
    }
}

/// A run of identifier characters ends at the same place wherever inside
/// it the measurement starts.
pub proof fn lemma_ident_run_end_step(s: Seq<char>, i: int, k: int)
    requires
        0 <= i <= k <= s.len(),
        forall|m: int| i <= m < k ==> is_ident_char(s[m]),
    ensures
        ident_run_end(s, i) == ident_run_end(s, k),
    decreases k - i,
{
    if i < k {
        assert(is_ident_char(s[i]));
        lemma_ident_run_end_step(s, i + 1, k);
    }
}

/// The value of a digit run is never negative.
pub proof fn lemma_digits_val_nonneg(s: Seq<char>)
    requires
        forall|k: int| 0 <= k < s.len() ==> is_digit_char(s[k]),
    ensures
        digits_val(s) >= 0,
    decreases s.len(),
{
    if s.len() > 0 {
        assert(forall|k: int| 0 <= k < s.drop_last().len() ==> is_digit_char(
            s.drop_last()[k],
        ));
        lemma_digits_val_nonneg(s.drop_last());
        assert(is_digit_char(s.last()));
    }
}

/// Extending a digit run to the right never lowers its value.
pub proof fn lemma_digits_val_prefix(s: Seq<char>, k: int)
    requires
        forall|m: int| 0 <= m < s.len() ==> is_digit_char(s[m]),
        0 <= k <= s.len(),
    ensures
        digits_val(s) >= digits_val(s.take(k)),
    decreases s.len() - k,
{
    if k < s.len() {
        lemma_digits_val_prefix(s, k + 1);
        let t = s.take(k + 1);
        assert(t.drop_last() =~= s.take(k));
        assert(forall|m: int| 0 <= m < s.take(k).len() ==> is_digit_char(s.take(k)[m]));
        lemma_digits_val_nonneg(s.take(k));
        assert(digits_val(t) == digits_val(s.take(k)) * 10 + digit_val(s[k]));
        assert(is_digit_char(s[k]));
        assert(digit_val(s[k]) >= 0);
        assert(digits_val(s.take(k)) * 10 >= digits_val(s.take(k)));
    } else {
        assert(s.take(k) =~= s);
    }
}

/// If a string body scans successfully, its end lies past the start and
/// inside the input.
pub proof fn lemma_scan_string_bounds(s: Seq<char>, i: int, quote: char)
    requires
        0 <= i <= s.len(),
    ensures
        scan_string(s, i, quote) matches Ok((cs, j)) ==> i + 1 <= j <= s.len(),
    decreases s.len() - i,
{
    if i < s.len() && s[i] != quote {
        if s[i] == '\\' {
            if i + 1 < s.len() {
                lemma_scan_string_bounds(s, i + 2, quote);
            }
        } else {
            lemma_scan_string_bounds(s, i + 1, quote);
        }
    }
}

/// Joins one token to the outcome of scanning the rest of the input.
pub open spec fn scan_cons(t: SpecToken, rest: Result<Seq<SpecToken>, TokenizerError>) -> Result<
    Seq<SpecToken>,
    TokenizerError,
> {
    match rest {
        Ok(ts) => Ok(seq![t] + ts),
        Err(e) => Err(e),
    }
}

/// The scanner, mathematically: the tokens of `s` from position `i` on,
/// ending in the end marker, or the first lexical error.
pub open spec fn spec_scan(s: Seq<char>, i: int) -> Result<Seq<SpecToken>, TokenizerError>
    decreases s.len() - i when 0 <= i <= s.len() via spec_scan_decreases
{
    if i >= s.len() {
        Ok(seq![SpecToken::Eof])
    } else {
        let c = s[i];
        if is_space_char(c) {
            spec_scan(s, i + 1)
        } else if c == '(' {
            scan_cons(SpecToken::LeftParentheses, spec_scan(s, i + 1))
        } else if c == ')' {
            scan_cons(SpecToken::RightParentheses, spec_scan(s, i + 1))
        } else if c == ',' {
            scan_cons(SpecToken::Comma, spec_scan(s, i + 1))
        } else if c == ';' {
            scan_cons(SpecToken::Semicolon, spec_scan(s, i + 1))
        } else if c == '+' {
            scan_cons(SpecToken::Plus, spec_scan(s, i + 1))
        } else if c == '-' {
            scan_cons(SpecToken::Minus, spec_scan(s, i + 1))
        } else if c == '*' {
            scan_cons(SpecToken::Star, spec_scan(s, i + 1))
        } else if c == '/' {
            scan_cons(SpecToken::Divide, spec_scan(s, i + 1))
        } else if c == '=' {
            scan_cons(SpecToken::Equal, spec_scan(s, i + 1))
        } else if c == '>' {
            if i + 1 < s.len() && s[i + 1] == '=' {
                scan_cons(SpecToken::GreaterThanOrEqual, spec_scan(s, i + 2))
            } else {
                scan_cons(SpecToken::GreaterThan, spec_scan(s, i + 1))
            }
        } else if c == '<' {
            if i + 1 < s.len() && s[i + 1] == '=' {
                scan_cons(SpecToken::LessThanOrEqual, spec_scan(s, i + 2))
            } else {
                scan_cons(SpecToken::LessThan, spec_scan(s, i + 1))
            }
        } else if c == '!' {
            if i + 1 < s.len() && s[i + 1] == '=' {
                scan_cons(SpecToken::NotEqual, spec_scan(s, i + 2))
            } else {
                Err(TokenizerError::UnexpectedChar('!'))
            }
        } else if c == '"' || c == '\'' {
            match scan_string(s, i + 1, c) {
                Ok((content, j)) => scan_cons(SpecToken::String(content), spec_scan(s, j)),
                Err(e) => Err(e),
            }
        } else if is_digit_char(c) {
            let j = digit_run_end(s, i);
            let v = digits_val(s.subrange(i, j));
            if v > u64::MAX {
                Err(TokenizerError::InvalidNumber)
            } else {
                scan_cons(SpecToken::Number(v as u64), spec_scan(s, j))
            }
        } else if is_ident_start_char(c) {
            let j = ident_run_end(s, i);
            let word = s.subrange(i, j);
            let tok = match spec_keyword_of(word) {
                Some(k) => SpecToken::Keyword(k),
                None => SpecToken::Identifier(word),
            };
            scan_cons(tok, spec_scan(s, j))
        } else {
            Err(TokenizerError::UnexpectedChar(c))
        }
    }
}

#[via_fn]
proof fn spec_scan_decreases(s: Seq<char>, i: int) {
    if 0 <= i < s.len() {
        let c = s[i];
        if c == '"' || c == '\'' {
            lemma_scan_string_bounds(s, i + 1, c);
        }
        if is_digit_char(c) {
            lemma_digit_run_end(s, i);
        }
        if is_ident_start_char(c) {
            lemma_ident_run_end(s, i);
        }
    }
}

/// Puts the tokens already produced in front of the outcome of scanning
/// the rest of the input.
pub open spec fn scan_concat(
    ts: Seq<SpecToken>,
    rest: Result<Seq<SpecToken>, TokenizerError>,
) -> Result<Seq<SpecToken>, TokenizerError> {
    match rest {
        Ok(more) => Ok(ts + more),
        Err(e) => Err(e),
    }
}

/// Joins the outcome of scanning part of a string body to the characters
/// already collected.
pub open spec fn string_concat(
    cs: Seq<char>,
    rest: Result<(Seq<char>, int), TokenizerError>,
) -> Result<(Seq<char>, int), TokenizerError> {
    match rest {
        Ok((more, j)) => Ok((cs + more, j)),
        Err(e) => Err(e),
    }
}

/// The scanner. It owns the characters of one input text and a cursor,
/// and makes a single pass over them.
pub struct Tokenizer {
    input: Vec<char>,
    pos: usize,
}

impl Tokenizer {
    /// The characters the scanner was given.
    pub closed spec fn text(&self) -> Seq<char> {
        self.input@
    }

    /// The position of the scanner's cursor.
    pub closed spec fn cursor(&self) -> int {
        self.pos as int
    }

    /// The cursor never lies outside the input.
    pub closed spec fn wf(&self) -> bool {
        self.pos <= self.input.len()
    }

    /// A scanner over the characters of `input`, with the cursor at the
    /// start.
    pub fn new(input: &str) -> (t: Tokenizer)
        ensures
            t.text() == input@,
            t.cursor() == 0,
            t.wf(),
    {
        Tokenizer { input: chars_of(input), pos: 0 }
    }

    /// The character under the cursor, consuming it.
    fn next_char(&mut self) -> (c: Option<char>)
        requires
            old(self).wf(),
        ensures
            final(self).text() == old(self).text(),
            final(self).wf(),
            old(self).cursor() < old(self).text().len() ==> (c == Some(
                old(self).text()[old(self).cursor()],
            ) && final(self).cursor() == old(self).cursor() + 1),
            old(self).cursor() >= old(self).text().len() ==> (c == None::<char>
                && final(self).cursor() == old(self).cursor()),
    {
        if self.pos < self.input.len() {
            let c = self.input[self.pos];
            self.pos = self.pos + 1;
            Some(c)
        } else {
            None
        }
    }

    /// The character under the cursor, without consuming it.
    fn peek_char(&self) -> (c: Option<char>)
        requires
            self.wf(),
        ensures
            self.cursor() < self.text().len() ==> c == Some(self.text()[self.cursor()]),
            self.cursor() >= self.text().len() ==> c == None::<char>,
    {
        if self.pos < self.input.len() {
            Some(self.input[self.pos])
        } else {
            None
        }
    }

    /// Scans the input from the cursor on and returns exactly what
    /// [`spec_scan`] describes: the token sequence, ending in one end
    /// marker, or the first lexical error.
    pub fn tokenize(&mut self) -> (r: Result<Vec<Token>, TokenizerError>)
        requires
            old(self).wf(),
        ensures
            final(self).text() == old(self).text(),
            final(self).wf(),
            match r {
                Ok(toks) => spec_scan(old(self).text(), old(self).cursor()) == Ok::<
                    _,
                    TokenizerError,
                >(toks.deep_view()),
                Err(e) => spec_scan(old(self).text(), old(self).cursor()) == Err::<
                    Seq<SpecToken>,
                    _,
                >(e),
            },
    {
        let ghost s = self.input@;
        let ghost i0 = self.pos as int;
        let mut tokens: Vec<Token> = Vec::new();
        loop
            invariant
                self.input@ == s,
                s == old(self).text(),
                i0 == old(self).cursor(),
                self.pos <= self.input.len(),
                0 <= i0 <= s.len(),
                spec_scan(s, i0) == scan_concat(tokens.deep_view(), spec_scan(s, self.pos as int)),
            ensures
                self.input@ == s,
                self.pos == self.input.len(),
                spec_scan(s, i0) == scan_concat(tokens.deep_view(), spec_scan(s, self.pos as int)),
            decreases self.input.len() - self.pos,
        {
            let c = match self.peek_char() {
                Some(c) => c,
                None => { break ; },
            };
            let ghost p = self.pos as int;
            let u = c as u32;
            if c == ' ' || c == '\t' || c == '\n' {
                self.next_char();
            } else if c == '(' {
                self.next_char();
                self.push_token(Ghost(s), Ghost(i0), &mut tokens, Token::LeftParentheses, Ghost(p));
            } else if c == ')' {
                self.next_char();
                self.push_token(Ghost(s), Ghost(i0), &mut tokens, Token::RightParentheses, Ghost(p));
            } else if c == ',' {
                self.next_char();
                self.push_token(Ghost(s), Ghost(i0), &mut tokens, Token::Comma, Ghost(p));
            } else if c == ';' {
                self.next_char();
                self.push_token(Ghost(s), Ghost(i0), &mut tokens, Token::Semicolon, Ghost(p));
            } else if c == '+' {
                self.next_char();
                self.push_token(Ghost(s), Ghost(i0), &mut tokens, Token::Plus, Ghost(p));
            } else if c == '-' {
                self.next_char();
                self.push_token(Ghost(s), Ghost(i0), &mut tokens, Token::Minus, Ghost(p));
            } else if c == '*' {
                self.next_char();
                self.push_token(Ghost(s), Ghost(i0), &mut tokens, Token::Star, Ghost(p));
            } else if c == '/' {
                self.next_char();
                self.push_token(Ghost(s), Ghost(i0), &mut tokens, Token::Divide, Ghost(p));
            } else if c == '=' {
                self.next_char();
                self.push_token(Ghost(s), Ghost(i0), &mut tokens, Token::Equal, Ghost(p));
            } else if c == '>' {
                self.next_char();
                let eq_follows = match self.peek_char() {
                    Some(c2) => c2 == '=',
                    None => false,
                };
                if eq_follows {
                    self.next_char();
                    self.push_token(
                        Ghost(s),
                        Ghost(i0),
                        &mut tokens,
                        Token::GreaterThanOrEqual,
                        Ghost(p),
                    );
                } else {
                    self.push_token(Ghost(s), Ghost(i0), &mut tokens, Token::GreaterThan, Ghost(p));
                }
            } else if c == '<' {
                self.next_char();
                let eq_follows = match self.peek_char() {
                    Some(c2) => c2 == '=',
                    None => false,
                };
                if eq_follows {
                    self.next_char();
                    self.push_token(
                        Ghost(s),
                        Ghost(i0),
                        &mut tokens,
                        Token::LessThanOrEqual,
                        Ghost(p),
                    );
                } else {
                    self.push_token(Ghost(s), Ghost(i0), &mut tokens, Token::LessThan, Ghost(p));
                }
            } else if c == '!' {
                self.next_char();
                let eq_follows = match self.peek_char() {
                    Some(c2) => c2 == '=',
                    None => false,
                };
                if eq_follows {
                    self.next_char();
                    self.push_token(Ghost(s), Ghost(i0), &mut tokens, Token::NotEqual, Ghost(p));
                } else {
                    return Err(TokenizerError::UnexpectedChar('!'));
                }
            } else if c == '"' || c == '\'' {
                self.next_char();
                let content = match self.scan_string_body(c) {
                    Ok(content) => content,
                    Err(e) => { return Err(e) },
                };
                proof {
                    lemma_scan_string_bounds(s, p + 1, c);
                }
                self.push_token(
                    Ghost(s),
                    Ghost(i0),
                    &mut tokens,
                    Token::String(string_from_chars(&content)),
                    Ghost(p),
                );
            } else if 48 <= u && u <= 57 {
                let num = match self.scan_number() {
                    Ok(num) => num,
                    Err(e) => { return Err(e) },
                };
                proof {
                    lemma_digit_run_end(s, p + 1);
                }
                self.push_token(Ghost(s), Ghost(i0), &mut tokens, Token::Number(num), Ghost(p));
            } else if (97 <= u && u <= 122) || (65 <= u && u <= 90) || c == '_' {
                let word = self.scan_word();
                proof {
                    lemma_ident_run_end(s, p + 1);
                }
                let tok = match keyword_of(&word) {
                    Some(k) => Token::Keyword(k),
                    None => Token::Identifier(string_from_chars(&word)),
                };
                self.push_token(Ghost(s), Ghost(i0), &mut tokens, tok, Ghost(p));
            } else {
                self.next_char();
                return Err(TokenizerError::UnexpectedChar(c));
            }
        }
        let ghost before = tokens.deep_view();
        tokens.push(Token::Eof);
        proof {
            assert(tokens.deep_view() =~= before + seq![SpecToken::Eof]);
        }
        Ok(tokens)
    }

    /// Appends one finished token, keeping the scan invariant: what was
    /// scanned so far, joined with the rest, is the scan of the whole.
    fn push_token(
        &self,
        Ghost(s): Ghost<Seq<char>>,
        Ghost(i0): Ghost<int>,
        tokens: &mut Vec<Token>,
        t: Token,
        Ghost(p): Ghost<int>,
    )
        requires
            self.wf(),
            self.text() == s,
            spec_scan(s, i0) == scan_concat(old(tokens).deep_view(), spec_scan(s, p)),
            spec_scan(s, p) == scan_cons(t.deep_view(), spec_scan(s, self.cursor())),
        ensures
            spec_scan(s, i0) == scan_concat(final(tokens).deep_view(), spec_scan(s, self.cursor())),
    {
        tokens.push(t);
        proof {
            assert(final(tokens).deep_view() =~= old(tokens).deep_view() + seq![t.deep_view()]);
            match spec_scan(s, self.cursor()) {
                Ok(more) => {
                    assert(old(tokens).deep_view() + (seq![t.deep_view()] + more) =~= (old(
                        tokens,
                    ).deep_view() + seq![t.deep_view()]) + more);
                },
                Err(_) => {},
            }
        }
    }

    /// Scans the body of a string literal whose opening quote the caller
    /// has just consumed.
    fn scan_string_body(&mut self, quote: char) -> (r: Result<Vec<char>, TokenizerError>)
        requires
            old(self).wf(),
        ensures
            final(self).text() == old(self).text(),
            final(self).wf(),
            match r {
                Ok(content) => scan_string(old(self).text(), old(self).cursor(), quote) == Ok::<
                    _,
                    TokenizerError,
                >((content@, final(self).cursor())),
                Err(e) => scan_string(old(self).text(), old(self).cursor(), quote) == Err::<
                    (Seq<char>, int),
                    _,
                >(e),
            },
    {
        let ghost s = self.input@;
        let ghost iq = self.pos as int;
        let mut content: Vec<char> = Vec::new();
        loop
            invariant_except_break
                scan_string(s, iq, quote) == string_concat(
                    content@,
                    scan_string(s, self.pos as int, quote),
                ),
            invariant
                self.input@ == s,
                s == old(self).text(),
                iq == old(self).cursor(),
                self.pos <= self.input.len(),
                0 <= iq <= s.len(),
            ensures
                self.input@ == s,
                self.pos <= self.input.len(),
                scan_string(s, iq, quote) == Ok::<_, TokenizerError>((content@, self.pos as int)),
            decreases self.input.len() - self.pos,
        {
            if self.pos >= self.input.len() {
                return Err(TokenizerError::UnterminatedString);
            }
            let ghost p = self.pos as int;
            let ch = self.input[self.pos];
            if ch == quote {
                self.pos = self.pos + 1;
                proof {
                    assert(content@ + Seq::<char>::empty() =~= content@);
                }
                break ;
            } else if ch == '\\' {
                if self.pos + 1 >= self.input.len() {
                    return Err(TokenizerError::UnterminatedString);
                }
                let c2 = self.input[self.pos + 1];
                let ghost before = content@;
                content.push(c2);
                self.pos = self.pos + 2;
                proof {
                    match scan_string(s, self.pos as int, quote) {
                        Ok((cs, _j)) => {
                            assert(before + (seq![c2] + cs) =~= content@ + cs);
                        },
                        Err(_) => {},
                    }
                }
            } else {
                let ghost before = content@;
                content.push(ch);
                self.pos = self.pos + 1;
                proof {
                    match scan_string(s, self.pos as int, quote) {
                        Ok((cs, _j)) => {
                            assert(before + (seq![ch] + cs) =~= content@ + cs);
                        },
                        Err(_) => {},
                    }
                }
            }
        }
        Ok(content)
    }

    /// Scans a maximal digit run into its value, or reports that the value
    /// does not fit the unsigned 64-bit domain.
    fn scan_number(&mut self) -> (r: Result<u64, TokenizerError>)
        requires
            old(self).wf(),
            old(self).cursor() < old(self).text().len(),
            is_digit_char(old(self).text()[old(self).cursor()]),
        ensures
            final(self).text() == old(self).text(),
            final(self).wf(),
            ({
                let s = old(self).text();
                let i = old(self).cursor();
                let j = digit_run_end(s, i);
                let v = digits_val(s.subrange(i, j));
                match r {
                    Ok(num) => v <= u64::MAX && num == v && final(self).cursor() == j,
                    Err(e) => v > u64::MAX && e == TokenizerError::InvalidNumber,
                }
            }),
    {
        let ghost s = self.input@;
        let ghost start = self.pos as int;
        let ghost j = digit_run_end(s, start);
        proof {
            lemma_digit_run_end(s, start);
        }
        let mut num: u64 = 0;
        loop
            invariant
                self.input@ == s,
                s == old(self).text(),
                start == old(self).cursor(),
                j == digit_run_end(s, start),
                0 <= start <= self.pos as int <= j <= self.input.len(),
                forall|k: int| start <= k < j ==> is_digit_char(s[k]),
                j < s.len() ==> !is_digit_char(s[j]),
                digit_run_end(s, self.pos as int) == j,
                num == digits_val(s.subrange(start, self.pos as int)),
            ensures
                self.input@ == s,
                self.pos as int == j,
                num == digits_val(s.subrange(start, j)),
            decreases self.input.len() - self.pos,
        {
            if self.pos >= self.input.len() {
                break ;
            }
            let ch = self.input[self.pos];
            let u = ch as u32;
            if !(48 <= u && u <= 57) {
                break ;
            }
            let d = (u - 48) as u64;
            if num > (u64::MAX - d) / 10 {
                proof {
                    let p = self.pos as int;
                    let whole = s.subrange(start, j);
                    assert(s.subrange(start, p + 1).drop_last() =~= s.subrange(start, p));
                    assert(digits_val(s.subrange(start, p + 1)) == num * 10 + d);
                    assert(num * 10 + d > u64::MAX) by (nonlinear_arith)
                        requires
                            num > (u64::MAX - d) / 10,
                            d <= 9,
                    ;
                    assert(forall|m: int| 0 <= m < whole.len() ==> is_digit_char(whole[m]));
                    lemma_digits_val_prefix(whole, p + 1 - start);
                    assert(whole.take(p + 1 - start) =~= s.subrange(start, p + 1));
                    assert(digits_val(whole) > u64::MAX);
                }
                return Err(TokenizerError::InvalidNumber);
            }
            proof {
                let p = self.pos as int;
                assert(s.subrange(start, p + 1).drop_last() =~= s.subrange(start, p));
                assert(num * 10 + d <= u64::MAX) by (nonlinear_arith)
                    requires
                        num <= (u64::MAX - d) / 10,
                        d <= 9,
                ;
            }
            num = num * 10 + d;
            self.pos = self.pos + 1;
            proof {
                lemma_digit_run_end(s, self.pos as int);
            }
        }
        Ok(num)
    }

    /// Scans a maximal run of identifier characters, the cursor standing
    /// on its first character.
    fn scan_word(&mut self) -> (word: Vec<char>)
        requires
            old(self).wf(),
            old(self).cursor() < old(self).text().len(),
            is_ident_start_char(old(self).text()[old(self).cursor()]),
        ensures
            final(self).text() == old(self).text(),
            final(self).wf(),
            final(self).cursor() == ident_run_end(old(self).text(), old(self).cursor()),
            word@ == old(self).text().subrange(old(self).cursor(), final(self).cursor()),
    {
        let ghost s = self.input@;
        let ghost start = self.pos as int;
        let ghost j = ident_run_end(s, start);
        proof {
            lemma_ident_run_end(s, start);
        }
        let mut word: Vec<char> = Vec::new();
        loop
            invariant
                self.input@ == s,
                s == old(self).text(),
                start == old(self).cursor(),
                j == ident_run_end(s, start),
                0 <= start <= self.pos as int <= j <= self.input.len(),
                forall|k: int| start <= k < j ==> is_ident_char(s[k]),
                j < s.len() ==> !is_ident_char(s[j]),
                ident_run_end(s, self.pos as int) == j,
                word@ =~= s.subrange(start, self.pos as int),
            ensures
                self.input@ == s,
                self.pos as int == j,
                word@ =~= s.subrange(start, j),
            decreases self.input.len() - self.pos,
        {
            if self.pos >= self.input.len() {
                break ;
            }
            let ch = self.input[self.pos];
            let u = ch as u32;
            if !((97 <= u && u <= 122) || (65 <= u && u <= 90) || ch == '_' || (48 <= u && u
                <= 57)) {
                break ;
            }
            word.push(ch);
            self.pos = self.pos + 1;
            proof {
                lemma_ident_run_end(s, self.pos as int);
                assert(word@ =~= s.subrange(start, self.pos as int));
            }
        }
        word
    }
}

} // verus!
