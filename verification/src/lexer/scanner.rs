//! The scanner: source text to tokens.
use vstd::prelude::*;
use crate::lexer::token::{
    keyword_for, literal_view, tokens_view, Keyword, Literal, LiteralView, Token, TokenType, TokenView,
};
use crate::number::{all_digits, digits_value, float_truncation, is_numeral, numeral_value, parse_numeral};
use crate::text::{
    append_str, char_is_alphabetic, char_is_alphanumeric, char_is_whitespace, decimal_text, push_char, str_to_chars,
    string_from_chars, unicode_alphabetic, unicode_alphanumeric, unicode_whitespace, usize_to_decimal,
};

verus! {

/// A lexical error, with the line it was found on.
#[derive(Debug, Clone, PartialEq)]
pub enum ScanError {
    /// A character that starts no token.
    UnexpectedCharacter { line: usize, character: char },
    /// A string literal that the input ends inside of.
    UnterminatedString { line: usize },
    /// A run of digits and dots with more than one dot, which no number is
    /// read from.
    MalformedNumber { line: usize, lexeme: String },
}

/// The mathematical view of a lexical error.
pub enum ScanErrorView {
    UnexpectedCharacter { line: usize, character: char },
    UnterminatedString { line: usize },
    MalformedNumber { line: usize, lexeme: Seq<char> },
}

impl View for ScanError {
    type V = ScanErrorView;

    open spec fn view(&self) -> ScanErrorView {
        match self {
            ScanError::UnexpectedCharacter { line, character } => ScanErrorView::UnexpectedCharacter {
                line: *line,
                character: *character,
            },
            ScanError::UnterminatedString { line } => ScanErrorView::UnterminatedString { line: *line },
            ScanError::MalformedNumber { line, lexeme } => ScanErrorView::MalformedNumber {
                line: *line,
                lexeme: lexeme@,
            },
        }
    }
}

/// The report of a lexical error.
pub open spec fn scan_error_text(e: ScanErrorView) -> Seq<char> {
    match e {
        ScanErrorView::UnexpectedCharacter { line, character } => "[line "@ + decimal_text(line as int)
            + "] Error: Unexpected character: "@ + seq![character],
        ScanErrorView::UnterminatedString { line } => "[line "@ + decimal_text(line as int)
            + "] Scanning Error: Unterminated string."@,
        ScanErrorView::MalformedNumber { .. } => "Failed to parse number literal"@,
    }
}

impl ScanError {
    /// The report of the error, as the command line prints it.
    pub fn to_string(&self) -> (r: String)
        ensures
            r@ == scan_error_text(self@),
    {
        match self {
            ScanError::UnexpectedCharacter { line, character } => {
                let mut m = String::from_str("[line ");
                append_str(&mut m, usize_to_decimal(*line).as_str());
                append_str(&mut m, "] Error: Unexpected character: ");
                push_char(&mut m, *character);
                m
            },
            ScanError::UnterminatedString { line } => {
                let mut m = String::from_str("[line ");
                append_str(&mut m, usize_to_decimal(*line).as_str());
                append_str(&mut m, "] Scanning Error: Unterminated string.");
                m
            },
            ScanError::MalformedNumber { .. } => String::from_str("Failed to parse number literal"),
        }
    }
}

/// The views of a sequence of lexical errors.
pub open spec fn scan_errors_view(es: Seq<ScanError>) -> Seq<ScanErrorView> {
    es.map_values(|e: ScanError| e@)
}

/// The tokens read from a text, and the lexical errors met on the way.
pub struct TokenArray {
    pub tokens: Vec<Token>,
    pub errors: Vec<ScanError>,
}

impl TokenArray {
    /// Appends a token.
    pub fn push(&mut self, token: Token)
        ensures
            final(self).tokens@ == old(self).tokens@.push(token),
            final(self).errors@ == old(self).errors@,
    {
        self.tokens.push(token);
    }
}

// ---------------------------------------------------------------------------
// What a scan produces
// ---------------------------------------------------------------------------

/// An ASCII decimal digit.
pub open spec fn is_digit_char(c: char) -> bool {
    '0' <= c <= '9'
}

/// A character that may continue an identifier.
pub open spec fn is_word_char(c: char) -> bool {
    unicode_alphanumeric(c) || c == '_'
}

/// The first position at or after `p` whose character does not continue an
/// identifier (or the end).
pub open spec fn word_end(s: Seq<char>, p: int) -> int
    decreases s.len() - p,
{
    if 0 <= p < s.len() && is_word_char(s[p]) {
        word_end(s, p + 1)
    } else {
        p
    }
}

/// The first position at or after `p` whose character is neither a digit
/// nor a dot (or the end).
pub open spec fn number_end(s: Seq<char>, p: int) -> int
    decreases s.len() - p,
{
    if 0 <= p < s.len() && (is_digit_char(s[p]) || s[p] == '.') {
        number_end(s, p + 1)
    } else {
        p
    }
}

/// The first position at or after `p` holding a newline (or the end).
pub open spec fn comment_end(s: Seq<char>, p: int) -> int
    decreases s.len() - p,
{
    if 0 <= p < s.len() && s[p] != '\n' {
        comment_end(s, p + 1)
    } else {
        p
    }
}

/// The first position at or after `p` holding a double quote (or the end).
pub open spec fn quote_position(s: Seq<char>, p: int) -> int
    decreases s.len() - p,
{
    if 0 <= p < s.len() && s[p] != '"' {
        quote_position(s, p + 1)
    } else {
        p
    }
}

/// What one step of the scanner does at a position.
pub enum ScanStep {
    /// A token is produced and scanning resumes at `next`.
    Emit { token: TokenView, next: int },
    /// Nothing is produced (space, newline, comment).
    Skip { next: int, line: usize },
    /// A lexical error is recorded.
    Fail { error: ScanErrorView, next: int },
}

/// A token without a literal, made of `s[p..q]`.
pub open spec fn plain_token(t: TokenType, s: Seq<char>, p: int, q: int, line: usize) -> TokenView {
    TokenView { token_type: t, lexeme: s.subrange(p, q), literal: None, line }
}

/// A one-character token, or a two-character one when the next character
/// is `second`.
pub open spec fn one_or_two(
    s: Seq<char>,
    p: int,
    line: usize,
    second: char,
    two: TokenType,
    one: TokenType,
) -> ScanStep {
    if p + 1 < s.len() && s[p + 1] == second {
        ScanStep::Emit { token: plain_token(two, s, p, p + 2, line), next: p + 2 }
    } else {
        ScanStep::Emit { token: plain_token(one, s, p, p + 1, line), next: p + 1 }
    }
}

/// The token type of a word: its keyword, or an identifier.
pub open spec fn word_type(text: Seq<char>) -> TokenType {
    match keyword_for(text) {
        Some(k) => TokenType::Keyword(k),
        None => TokenType::Identifier,
    }
}

/// The literal carried by a word: `true`, `false` and `nil` carry their value.
pub open spec fn word_literal(t: TokenType) -> Option<LiteralView> {
    match t {
        TokenType::Keyword(Keyword::True) => Some(LiteralView::Boolean(true)),
        TokenType::Keyword(Keyword::False) => Some(LiteralView::Boolean(false)),
        TokenType::Keyword(Keyword::Nil) => Some(LiteralView::Nil),
        _ => None,
    }
}

/// One step of scanning at position `p < s.len()`, on line `line`.
pub open spec fn scan_step(s: Seq<char>, p: int, line: usize) -> ScanStep {
    let c = s[p];
    if c == '=' {
        one_or_two(s, p, line, '=', TokenType::EqualEqual, TokenType::Equal)
    } else if c == '!' {
        one_or_two(s, p, line, '=', TokenType::BangEqual, TokenType::Bang)
    } else if c == '<' {
        one_or_two(s, p, line, '=', TokenType::LessEqual, TokenType::Less)
    } else if c == '>' {
        one_or_two(s, p, line, '=', TokenType::GreaterEqual, TokenType::Greater)
    } else if c == '(' {
        ScanStep::Emit { token: plain_token(TokenType::LeftParen, s, p, p + 1, line), next: p + 1 }
    } else if c == ')' {
        ScanStep::Emit { token: plain_token(TokenType::RightParen, s, p, p + 1, line), next: p + 1 }
    } else if c == '{' {
        ScanStep::Emit { token: plain_token(TokenType::LeftBrace, s, p, p + 1, line), next: p + 1 }
    } else if c == '}' {
        ScanStep::Emit { token: plain_token(TokenType::RightBrace, s, p, p + 1, line), next: p + 1 }
    } else if c == ',' {
        ScanStep::Emit { token: plain_token(TokenType::Comma, s, p, p + 1, line), next: p + 1 }
    } else if c == '.' {
        ScanStep::Emit { token: plain_token(TokenType::Dot, s, p, p + 1, line), next: p + 1 }
    } else if c == '-' {
        ScanStep::Emit { token: plain_token(TokenType::Minus, s, p, p + 1, line), next: p + 1 }
    } else if c == '+' {
        ScanStep::Emit { token: plain_token(TokenType::Plus, s, p, p + 1, line), next: p + 1 }
    } else if c == ';' {
        ScanStep::Emit { token: plain_token(TokenType::Semicolon, s, p, p + 1, line), next: p + 1 }
    } else if c == '*' {
        ScanStep::Emit { token: plain_token(TokenType::Star, s, p, p + 1, line), next: p + 1 }
    } else if c == '\n' {
        ScanStep::Skip { next: p + 1, line: (line + 1) as usize }
    } else if unicode_whitespace(c) {
        ScanStep::Skip { next: p + 1, line }
    } else if c == '/' {
        if p + 1 < s.len() && s[p + 1] == '/' {
            ScanStep::Skip { next: comment_end(s, p + 1), line }
        } else {
            ScanStep::Emit { token: plain_token(TokenType::Slash, s, p, p + 1, line), next: p + 1 }
        }
    } else if c == '"' {
        let q = quote_position(s, p + 1);
        if q < s.len() {
            ScanStep::Emit {
                token: TokenView {
                    token_type: TokenType::String,
                    lexeme: s.subrange(p, q + 1),
                    literal: Some(LiteralView::String(s.subrange(p + 1, q))),
                    line,
                },
                next: q + 1,
            }
        } else {
            ScanStep::Fail { error: ScanErrorView::UnterminatedString { line }, next: s.len() as int }
        }
    } else if is_digit_char(c) {
        let e = number_end(s, p + 1);
        let text = s.subrange(p, e);
        if is_numeral(text) {
            ScanStep::Emit {
                token: TokenView {
                    token_type: TokenType::Number,
                    lexeme: text,
                    literal: Some(LiteralView::Number(numeral_value(text))),
                    line,
                },
                next: e,
            }
        } else {
            ScanStep::Fail { error: ScanErrorView::MalformedNumber { line, lexeme: text }, next: e }
        }
    } else if unicode_alphabetic(c) || c == '_' {
        let e = word_end(s, p + 1);
        let text = s.subrange(p, e);
        let t = word_type(text);
        ScanStep::Emit {
            token: TokenView { token_type: t, lexeme: text, literal: word_literal(t), line },
            next: e,
        }
    } else {
        ScanStep::Fail { error: ScanErrorView::UnexpectedCharacter { line, character: c }, next: p + 1 }
    }
}

/// Where a step resumes.
pub open spec fn step_next(st: ScanStep) -> int {
    match st {
        ScanStep::Emit { next, .. } => next,
        ScanStep::Skip { next, .. } => next,
        ScanStep::Fail { next, .. } => next,
    }
}

proof fn lemma_word_end_bounds(s: Seq<char>, p: int)
    requires
        0 <= p <= s.len(),
    ensures
        p <= word_end(s, p) <= s.len(),
    decreases s.len() - p,
{
    if p < s.len() && is_word_char(s[p]) {
        lemma_word_end_bounds(s, p + 1);
    }
}

proof fn lemma_number_end_bounds(s: Seq<char>, p: int)
    requires
        0 <= p <= s.len(),
    ensures
        p <= number_end(s, p) <= s.len(),
    decreases s.len() - p,
{
    if p < s.len() && (is_digit_char(s[p]) || s[p] == '.') {
        lemma_number_end_bounds(s, p + 1);
    }
}

proof fn lemma_comment_end_bounds(s: Seq<char>, p: int)
    requires
        0 <= p <= s.len(),
    ensures
        p <= comment_end(s, p) <= s.len(),
    decreases s.len() - p,
{
    if p < s.len() && s[p] != '\n' {
        lemma_comment_end_bounds(s, p + 1);
    }
}

proof fn lemma_quote_position_bounds(s: Seq<char>, p: int)
    requires
        0 <= p <= s.len(),
    ensures
        p <= quote_position(s, p) <= s.len(),
        quote_position(s, p) < s.len() ==> s[quote_position(s, p)] == '"',
    decreases s.len() - p,
{
    if p < s.len() && s[p] != '"' {
        lemma_quote_position_bounds(s, p + 1);
    }
}

/// Every step moves forward and stays within the text.
pub proof fn lemma_scan_step_advances(s: Seq<char>, p: int, line: usize)
    requires
        0 <= p < s.len(),
    ensures
        p < step_next(scan_step(s, p, line)) <= s.len(),
{
    lemma_word_end_bounds(s, p + 1);
    lemma_number_end_bounds(s, p + 1);
    lemma_comment_end_bounds(s, p + 1);
    lemma_quote_position_bounds(s, p + 1);
}

/// The number of newlines in a text.
pub open spec fn newlines(t: Seq<char>) -> nat
    decreases t.len(),
{
    if t.len() == 0 {
        0
    } else {
        newlines(t.drop_last()) + if t.last() == '\n' {
            1nat
        } else {
            0nat
        }
    }
}

/// A text holds no more newlines than characters.
proof fn lemma_newlines_bound(t: Seq<char>)
    ensures
        newlines(t) <= t.len(),
    decreases t.len(),
{
    if t.len() > 0 {
        lemma_newlines_bound(t.drop_last());
    }
}

/// The line scanning resumes on after a token: a string literal may span
/// lines, and every newline in it counts.
pub open spec fn line_after(token: TokenView, line: usize) -> usize {
    if token.token_type == TokenType::String {
        (line + newlines(token.lexeme)) as usize
    } else {
        line
    }
}

/// The line scanning resumes on after an error at position `p`: a string
/// that the input ends inside of counts the newlines up to the end.
pub open spec fn line_after_error(error: ScanErrorView, s: Seq<char>, p: int, line: usize) -> usize {
    match error {
        ScanErrorView::UnterminatedString { .. } => (line + newlines(s.subrange(p, s.len() as int))) as usize,
        _ => line,
    }
}

/// The end-of-input token.
pub open spec fn eof_token(s: Seq<char>, line: usize) -> TokenView {
    TokenView { token_type: TokenType::Eof, lexeme: s.subrange(s.len() as int, s.len() as int), literal: None, line }
}

/// The tokens and errors produced by scanning `s` from position `p` on line
/// `line` to the end; the tokens always end with the end-of-input token.
pub open spec fn scan_from(s: Seq<char>, p: int, line: usize) -> (Seq<TokenView>, Seq<ScanErrorView>)
    decreases s.len() - p,
{
    if p < 0 || p >= s.len() {
        (seq![eof_token(s, line)], seq![])
    } else {
        proof {
            lemma_scan_step_advances(s, p, line);
        }
        match scan_step(s, p, line) {
            ScanStep::Emit { token, next } => {
                let rest = scan_from(s, next, line_after(token, line));
                (seq![token] + rest.0, rest.1)
            },
            ScanStep::Skip { next, line: l } => scan_from(s, next, l),
            ScanStep::Fail { error, next } => {
                let rest = scan_from(s, next, line_after_error(error, s, p, line));
                (rest.0, seq![error] + rest.1)
            },
        }
    }
}

/// The tokens and errors produced by scanning a whole text.
pub open spec fn scan_text(s: Seq<char>) -> (Seq<TokenView>, Seq<ScanErrorView>) {
    scan_from(s, 0, 1)
}

/// Scanning from any position gives tokens that end with the end-of-input
/// token and hold no other one.
pub proof fn lemma_scan_from_ends_with_eof(s: Seq<char>, p: int, line: usize)
    ensures
        scan_from(s, p, line).0.len() > 0,
        scan_from(s, p, line).0.last().token_type == TokenType::Eof,
        forall|i: int| 0 <= i < scan_from(s, p, line).0.len() - 1 ==> #[trigger] scan_from(s, p, line).0[i].token_type
            != TokenType::Eof,
    decreases s.len() - p,
{
    if 0 <= p < s.len() {
        lemma_scan_step_advances(s, p, line);
        match scan_step(s, p, line) {
            ScanStep::Emit { token, next } => {
                lemma_scan_from_ends_with_eof(s, next, line_after(token, line));
                let rest = scan_from(s, next, line_after(token, line)).0;
                assert(token.token_type != TokenType::Eof);
                assert forall|i: int| 0 <= i < (seq![token] + rest).len() - 1 implies #[trigger] (seq![token]
                    + rest)[i].token_type != TokenType::Eof by {
                    if i > 0 {
                        assert((seq![token] + rest)[i] == rest[i - 1]);
                    }
                }
            },
            ScanStep::Skip { next, line: l } => {
                lemma_scan_from_ends_with_eof(s, next, l);
            },
            ScanStep::Fail { error, next } => {
                lemma_scan_from_ends_with_eof(s, next, line_after_error(error, s, p, line));
            },
        }
    }
}

/// The tokens of a whole text end with the end-of-input token, and hold no
/// other one.
pub proof fn lemma_scan_ends_with_eof(s: Seq<char>)
    ensures
        scan_text(s).0.len() > 0,
        scan_text(s).0.last().token_type == TokenType::Eof,
        forall|i: int| 0 <= i < scan_text(s).0.len() - 1 ==> #[trigger] scan_text(s).0[i].token_type != TokenType::Eof,
{
    lemma_scan_from_ends_with_eof(s, 0, 1);
}

// ---------------------------------------------------------------------------
// The scanner
// ---------------------------------------------------------------------------

/// A number token whose lexeme is a run of digits below 2^53 holds that
/// integer exactly: the double it holds truncates back to it.
pub open spec fn exact_integer(t: TokenView) -> bool {
    match t.literal {
        Some(LiteralView::Number(n)) => all_digits(t.lexeme) && digits_value(t.lexeme) < 0x20_0000_0000_0000
            ==> float_truncation(n) == digits_value(t.lexeme),
        _ => true,
    }
}

/// Scans a text into tokens. Lexical errors do not stop the scan: they are
/// collected beside the tokens, in the order they were met. An integer
/// numeral below 2^53 is read exactly.
pub fn scan(input: &str) -> (r: TokenArray)
    requires
        input@.len() < usize::MAX,
    ensures
        tokens_view(r.tokens@) == scan_text(input@).0,
        scan_errors_view(r.errors@) == scan_text(input@).1,
        forall|i: int| 0 <= i < r.tokens@.len() ==> exact_integer(#[trigger] r.tokens@[i]@),
{
    let mut scanner = Scanner::new(input);
    scanner.scan_tokens();
    scanner.tokens
}

struct Scanner {
    chars: Vec<char>,
    line: usize,
    start: usize,
    current: usize,
    pub tokens: TokenArray,
}

impl Scanner {
    spec fn wf(&self) -> bool {
        &&& self.start <= self.current <= self.chars@.len()
        &&& self.chars@.len() < usize::MAX
        &&& self.line <= self.current + 1
        &&& forall|i: int| 0 <= i < self.tokens.tokens@.len() ==> exact_integer(#[trigger] self.tokens.tokens@[i]@)
    }

    /// The part of the input still to scan, seen from the result so far:
    /// the tokens made so far followed by what the rest of the text yields
    /// is what the whole text yields.
    spec fn accounts_for(&self, s: Seq<char>) -> bool {
        let rest = scan_from(s, self.current as int, self.line);
        &&& tokens_view(self.tokens.tokens@) + rest.0 == scan_text(s).0
        &&& scan_errors_view(self.tokens.errors@) + rest.1 == scan_text(s).1
    }

    fn new(input: &str) -> (r: Self)
        requires
            input@.len() < usize::MAX,
        ensures
            r.wf(),
            r.chars@ == input@,
            r.current == 0,
            r.line == 1,
            r.tokens.tokens@.len() == 0,
            r.tokens.errors@.len() == 0,
    {
        Scanner {
            chars: str_to_chars(input),
            line: 1,
            start: 0,
            current: 0,
            tokens: TokenArray { tokens: Vec::new(), errors: Vec::new() },
        }
    }

    // Start a token
    fn begin_token(&mut self)
        requires
            old(self).wf(),
        ensures
            final(self).wf(),
            final(self).start == old(self).current,
            final(self).current == old(self).current,
            final(self).line == old(self).line,
            final(self).chars@ == old(self).chars@,
            final(self).tokens.tokens@ == old(self).tokens.tokens@,
            final(self).tokens.errors@ == old(self).tokens.errors@,
    {
        self.start = self.current;
    }

    // Advance the scanner by one character and return it
    fn advance(&mut self) -> (r: Option<char>)
        requires
            old(self).wf(),
        ensures
            final(self).wf(),
            final(self).chars@ == old(self).chars@,
            final(self).start == old(self).start,
            final(self).line == old(self).line,
            final(self).tokens.tokens@ == old(self).tokens.tokens@,
            final(self).tokens.errors@ == old(self).tokens.errors@,
            old(self).current < old(self).chars@.len() ==> r == Some(old(self).chars@[old(self).current as int])
                && final(self).current == old(self).current + 1,
            old(self).current >= old(self).chars@.len() ==> r is None && final(self).current == old(self).current,
    {
        if self.current < self.chars.len() {
            let c = self.chars[self.current];
            self.current = self.current + 1;
            Some(c)
        } else {
            None
        }
    }

    fn peek(&self) -> (r: Option<char>)
        requires
            self.wf(),
        ensures
            self.current < self.chars@.len() ==> r == Some(self.chars@[self.current as int]),
            self.current >= self.chars@.len() ==> r is None,
    {
        if self.current < self.chars.len() {
            Some(self.chars[self.current])
        } else {
            None
        }
    }

    // Get the current lexeme being scanned
    fn get_lexeme(&self) -> (r: String)
        requires
            self.wf(),
        ensures
            r@ == self.chars@.subrange(self.start as int, self.current as int),
    {
        string_from_chars(&self.chars, self.start, self.current)
    }

    // Create a new token and add it to the tokens vector
    fn make_token(&mut self, token_type: TokenType, literal: Option<Literal>)
        requires
            old(self).wf(),
            exact_integer(
                TokenView {
                    token_type,
                    lexeme: old(self).chars@.subrange(old(self).start as int, old(self).current as int),
                    literal: literal_view(literal),
                    line: old(self).line,
                },
            ),
        ensures
            final(self).wf(),
            final(self).chars@ == old(self).chars@,
            final(self).start == old(self).start,
            final(self).current == old(self).current,
            final(self).line == old(self).line,
            tokens_view(final(self).tokens.tokens@) == tokens_view(old(self).tokens.tokens@).push(
                TokenView {
                    token_type,
                    lexeme: old(self).chars@.subrange(old(self).start as int, old(self).current as int),
                    literal: literal_view(literal),
                    line: old(self).line,
                },
            ),
            final(self).tokens.errors@ == old(self).tokens.errors@,
    {
        let lexeme = self.get_lexeme();
        let token = Token::new(token_type, lexeme, literal, self.line);
        self.tokens.push(token);
        assert(tokens_view(self.tokens.tokens@) =~= tokens_view(old(self).tokens.tokens@).push(token@));
    }

    fn record_error(&mut self, error: ScanError)
        requires
            old(self).wf(),
        ensures
            final(self).wf(),
            final(self).chars@ == old(self).chars@,
            final(self).start == old(self).start,
            final(self).current == old(self).current,
            final(self).line == old(self).line,
            final(self).tokens.tokens@ == old(self).tokens.tokens@,
            scan_errors_view(final(self).tokens.errors@) == scan_errors_view(old(self).tokens.errors@).push(error@),
    {
        self.tokens.errors.push(error);
        assert(scan_errors_view(self.tokens.errors@) =~= scan_errors_view(old(self).tokens.errors@).push(error@));
    }

    fn scan_tokens(&mut self)
        requires
            old(self).wf(),
            old(self).current == 0,
            old(self).line == 1,
            old(self).tokens.tokens@.len() == 0,
            old(self).tokens.errors@.len() == 0,
        ensures
            final(self).wf(),
            tokens_view(final(self).tokens.tokens@) == scan_text(old(self).chars@).0,
            scan_errors_view(final(self).tokens.errors@) == scan_text(old(self).chars@).1,
    {
        let ghost s = self.chars@;
        assert(tokens_view(self.tokens.tokens@) =~= Seq::<TokenView>::empty());
        assert(scan_errors_view(self.tokens.errors@) =~= Seq::<ScanErrorView>::empty());
        while self.peek().is_some()
            invariant
                self.wf(),
                self.chars@ == s,
                self.accounts_for(s),
            decreases s.len() - self.current,
        {
            let ghost before = *self;
            self.scan_token();
            proof {
                lemma_scan_step_advances(s, before.current as int, before.line);
                let rest = scan_from(s, self.current as int, self.line);
                match scan_step(s, before.current as int, before.line) {
                    ScanStep::Emit { token, next } => {
                        assert(tokens_view(self.tokens.tokens@) + rest.0 =~= tokens_view(before.tokens.tokens@)
                            + (seq![token] + rest.0));
                    },
                    ScanStep::Skip { .. } => {},
                    ScanStep::Fail { error, .. } => {
                        assert(scan_errors_view(self.tokens.errors@) + rest.1 =~= scan_errors_view(
                            before.tokens.errors@,
                        ) + (seq![error] + rest.1));
                    },
                }
            }
        }
        // Add EOF token at the end
        self.begin_token();
        self.make_token(TokenType::Eof, None);
        assert(tokens_view(self.tokens.tokens@) =~= scan_text(s).0);
        assert(scan_errors_view(self.tokens.errors@) =~= scan_text(s).1);
    }

    /// Scans one token (or skips one blank, newline or comment, or records
    /// one error) at the current position.
    fn scan_token(&mut self)
        requires
            old(self).wf(),
            old(self).current < old(self).chars@.len(),
        ensures
            final(self).wf(),
            final(self).chars@ == old(self).chars@,
            ({
                let s = old(self).chars@;
                let p = old(self).current as int;
                let line = old(self).line;
                match scan_step(s, p, line) {
                    ScanStep::Emit { token, next } => {
                        &&& tokens_view(final(self).tokens.tokens@) == tokens_view(old(self).tokens.tokens@).push(token)
                        &&& final(self).tokens.errors@ == old(self).tokens.errors@
                        &&& final(self).current == next
                        &&& final(self).line == line_after(token, line)
                    },
                    ScanStep::Skip { next, line: l } => {
                        &&& final(self).tokens.tokens@ == old(self).tokens.tokens@
                        &&& final(self).tokens.errors@ == old(self).tokens.errors@
                        &&& final(self).current == next
                        &&& final(self).line == l
                    },
                    ScanStep::Fail { error, next } => {
                        &&& final(self).tokens.tokens@ == old(self).tokens.tokens@
                        &&& scan_errors_view(final(self).tokens.errors@) == scan_errors_view(
                            old(self).tokens.errors@,
                        ).push(error)
                        &&& final(self).current == next
                        &&& final(self).line == line_after_error(error, s, p, line)
                    },
                }
            }),
    {
        let ghost s = self.chars@;
        let ghost p = self.current as int;
        self.begin_token();

        let c = match self.advance() {
            Some(c) => c,
            None => { return; },
        };

        if c == '=' {
            if self.peek() == Some('=') {
                self.advance();
                self.make_token(TokenType::EqualEqual, None);
            } else {
                self.make_token(TokenType::Equal, None);
            }
        } else if c == '!' {
            if self.peek() == Some('=') {
                self.advance();
                self.make_token(TokenType::BangEqual, None);
            } else {
                self.make_token(TokenType::Bang, None);
            }
        } else if c == '<' {
            if self.peek() == Some('=') {
                self.advance();
                self.make_token(TokenType::LessEqual, None);
            } else {
                self.make_token(TokenType::Less, None);
            }
        } else if c == '>' {
            if self.peek() == Some('=') {
                self.advance();
                self.make_token(TokenType::GreaterEqual, None);
            } else {
                self.make_token(TokenType::Greater, None);
            }
        } else if c == '(' {
            self.make_token(TokenType::LeftParen, None);
        } else if c == ')' {
            self.make_token(TokenType::RightParen, None);
        } else if c == '{' {
            self.make_token(TokenType::LeftBrace, None);
        } else if c == '}' {
            self.make_token(TokenType::RightBrace, None);
        } else if c == ',' {
            self.make_token(TokenType::Comma, None);
        } else if c == '.' {
            self.make_token(TokenType::Dot, None);
        } else if c == '-' {
            self.make_token(TokenType::Minus, None);
        } else if c == '+' {
            self.make_token(TokenType::Plus, None);
        } else if c == ';' {
            self.make_token(TokenType::Semicolon, None);
        } else if c == '*' {
            self.make_token(TokenType::Star, None);
        } else if c == '\n' {
            self.line = self.line + 1;
        } else if char_is_whitespace(c) {
            // skip other whitespace
        } else if c == '/' {
            if self.peek() == Some('/') {
                // consume rest of line
                while self.current < self.chars.len() && self.chars[self.current] != '\n'
                    invariant
                        self.wf(),
                        self.chars@ == s,
                        self.start == p,
                        self.line == old(self).line,
                        self.tokens.tokens@ == old(self).tokens.tokens@,
                self.tokens.errors@ == old(self).tokens.errors@,
                        p + 1 <= self.current <= s.len(),
                        comment_end(s, self.current as int) == comment_end(s, p + 1),
                    decreases s.len() - self.current,
                {
                    self.advance();
                }
            } else {
                self.make_token(TokenType::Slash, None);
            }
        } else if c == '"' {
            self.scan_string();
        } else if '0' <= c && c <= '9' {
            self.scan_number();
        } else if char_is_alphabetic(c) || c == '_' {
            self.scan_word();
        } else {
            self.record_error(ScanError::UnexpectedCharacter { line: self.line, character: c });
        }
    }

    // Method to scan words (identifiers and keywords)
    fn scan_word(&mut self)
        requires
            old(self).wf(),
            old(self).current == old(self).start + 1,
        ensures
            final(self).wf(),
            final(self).chars@ == old(self).chars@,
            final(self).line == old(self).line,
            final(self).current == word_end(old(self).chars@, old(self).current as int),
            final(self).tokens.errors@ == old(self).tokens.errors@,
            ({
                let text = old(self).chars@.subrange(old(self).start as int, final(self).current as int);
                let t = word_type(text);
                tokens_view(final(self).tokens.tokens@) == tokens_view(old(self).tokens.tokens@).push(
                    TokenView { token_type: t, lexeme: text, literal: word_literal(t), line: old(self).line },
                )
            }),
    {
        let ghost s = self.chars@;
        // Look ahead to consume all alphanumeric characters
        while self.current < self.chars.len() && (char_is_alphanumeric(self.chars[self.current])
            || self.chars[self.current] == '_')
            invariant
                self.wf(),
                self.chars@ == s,
                self.start == old(self).start,
                self.line == old(self).line,
                self.tokens.tokens@ == old(self).tokens.tokens@,
                self.tokens.errors@ == old(self).tokens.errors@,
                old(self).current <= self.current,
                word_end(s, self.current as int) == word_end(s, old(self).current as int),
            decreases s.len() - self.current,
        {
            self.advance();
        }
        let lexeme = self.get_lexeme();
        let token_type = match Keyword::from_str(lexeme.as_str()) {
            Some(keyword) => TokenType::Keyword(keyword),
            None => TokenType::Identifier,
        };
        let literal = match token_type {
            TokenType::Keyword(Keyword::True) => Some(Literal::Boolean(true)),
            TokenType::Keyword(Keyword::False) => Some(Literal::Boolean(false)),
            TokenType::Keyword(Keyword::Nil) => Some(Literal::Nil),
            _ => None,
        };
        self.make_token(token_type, literal);
    }

    // Method to scan number literals
    fn scan_number(&mut self)
        requires
            old(self).wf(),
            old(self).current == old(self).start + 1,
            is_digit_char(old(self).chars@[old(self).start as int]),
        ensures
            final(self).wf(),
            final(self).chars@ == old(self).chars@,
            final(self).line == old(self).line,
            final(self).current == number_end(old(self).chars@, old(self).current as int),
            ({
                let text = old(self).chars@.subrange(old(self).start as int, final(self).current as int);
                if is_numeral(text) {
                    &&& tokens_view(final(self).tokens.tokens@) == tokens_view(old(self).tokens.tokens@).push(
                        TokenView {
                            token_type: TokenType::Number,
                            lexeme: text,
                            literal: Some(LiteralView::Number(numeral_value(text))),
                            line: old(self).line,
                        },
                    )
                    &&& final(self).tokens.errors@ == old(self).tokens.errors@
                } else {
                    &&& final(self).tokens.tokens@ == old(self).tokens.tokens@
                    &&& scan_errors_view(final(self).tokens.errors@) == scan_errors_view(
                        old(self).tokens.errors@,
                    ).push(ScanErrorView::MalformedNumber { line: old(self).line, lexeme: text })
                }
            }),
    {
        let ghost s = self.chars@;
        let mut dots: usize = 0;
        // Look ahead to consume all digits
        while self.current < self.chars.len() && (('0' <= self.chars[self.current] && self.chars[self.current]
            <= '9') || self.chars[self.current] == '.')
            invariant
                self.wf(),
                self.chars@ == s,
                self.start == old(self).start,
                self.line == old(self).line,
                self.tokens.tokens@ == old(self).tokens.tokens@,
                self.tokens.errors@ == old(self).tokens.errors@,
                old(self).current <= self.current,
                number_end(s, self.current as int) == number_end(s, old(self).current as int),
                dots <= self.current,
                forall|i: int| self.start <= i < self.current ==> (is_digit_char(#[trigger] s[i]) || s[i] == '.'),
                dots <= 1 ==> forall|i: int, j: int|
                    self.start <= i < j < self.current && #[trigger] s[i] == '.' ==> #[trigger] s[j] != '.',
                dots == 0 ==> forall|i: int| self.start <= i < self.current ==> #[trigger] s[i] != '.',
                dots >= 1 ==> exists|i: int| self.start <= i < self.current && #[trigger] s[i] == '.',
                dots >= 2 ==> exists|i: int, j: int|
                    self.start <= i < j < self.current && #[trigger] s[i] == '.' && #[trigger] s[j] == '.',
            decreases s.len() - self.current,
        {
            if self.chars[self.current] == '.' {
                proof {
                    if dots == 1 {
                        let i = choose|i: int| self.start <= i < self.current && #[trigger] s[i] == '.';
                        assert(s[self.current as int] == '.');
                    }
                }
                if dots < 2 {
                    dots = dots + 1;
                }
            }
            self.advance();
        }
        let lexeme = self.get_lexeme();
        let ghost text = s.subrange(old(self).start as int, self.current as int);
        if dots <= 1 {
            assert(is_numeral(text)) by {
                assert forall|i: int| 0 <= i < text.len() implies ('0' <= #[trigger] text[i] <= '9' || text[i] == '.') by {
                    assert(text[i] == s[self.start + i]);
                }
                assert forall|i: int, j: int| 0 <= i < j < text.len() && #[trigger] text[i] == '.' implies #[trigger] text[j] != '.' by {
                    assert(text[i] == s[self.start + i]);
                    assert(text[j] == s[self.start + j]);
                }
            }
            let value = parse_numeral(lexeme.as_str());
            assert(lexeme@ == text);
            self.make_token(TokenType::Number, Some(Literal::Number(value)));
        } else {
            assert(!is_numeral(text)) by {
                let (i, j) = choose|i: int, j: int|
                    self.start <= i < j < self.current && #[trigger] s[i] == '.' && #[trigger] s[j] == '.';
                assert(text[i - self.start] == '.');
                assert(text[j - self.start] == '.');
            }
            self.record_error(ScanError::MalformedNumber { line: self.line, lexeme });
        }
    }

    // Method to scan string literals
    fn scan_string(&mut self)
        requires
            old(self).wf(),
            old(self).current == old(self).start + 1,
            old(self).chars@[old(self).start as int] == '"',
        ensures
            final(self).wf(),
            final(self).chars@ == old(self).chars@,
            ({
                let s = old(self).chars@;
                let q = quote_position(s, old(self).current as int);
                if q < s.len() {
                    &&& final(self).current == q + 1
                    &&& final(self).line == old(self).line + newlines(s.subrange(old(self).start as int, q + 1))
                    &&& tokens_view(final(self).tokens.tokens@) == tokens_view(old(self).tokens.tokens@).push(
                        TokenView {
                            token_type: TokenType::String,
                            lexeme: s.subrange(old(self).start as int, q + 1),
                            literal: Some(LiteralView::String(s.subrange(old(self).start + 1, q))),
                            line: old(self).line,
                        },
                    )
                    &&& final(self).tokens.errors@ == old(self).tokens.errors@
                } else {
                    &&& final(self).current == s.len()
                    &&& final(self).line == old(self).line + newlines(s.subrange(old(self).start as int, s.len() as int))
                    &&& final(self).tokens.tokens@ == old(self).tokens.tokens@
                    &&& scan_errors_view(final(self).tokens.errors@) == scan_errors_view(
                        old(self).tokens.errors@,
                    ).push(ScanErrorView::UnterminatedString { line: old(self).line })
                }
            }),
    {
        let ghost s = self.chars@;
        let mut lines: usize = 0;
        proof {
            assert(s.subrange(self.start as int, self.current as int) =~= seq![s[self.start as int]]);
            assert(s.subrange(self.start as int, self.current as int).drop_last() =~= Seq::<char>::empty());
            assert(newlines(Seq::<char>::empty()) == 0);
            assert(newlines(s.subrange(self.start as int, self.current as int)) == 0);
        }
        while self.current < self.chars.len()
            invariant
                self.wf(),
                self.chars@ == s,
                self.start == old(self).start,
                self.line == old(self).line,
                self.tokens.tokens@ == old(self).tokens.tokens@,
                self.tokens.errors@ == old(self).tokens.errors@,
                old(self).current <= self.current,
                self.start + 1 == old(self).current,
                s == old(self).chars@,
                s[self.start as int] == '"',
                lines == newlines(s.subrange(self.start as int, self.current as int)),
                lines + 1 <= self.current - self.start,
                self.line <= self.start + 2,
                quote_position(s, self.current as int) == quote_position(s, old(self).current as int),
            decreases s.len() - self.current,
        {
            let c = self.chars[self.current];
            self.advance();
            proof {
                assert(s.subrange(self.start as int, self.current as int).drop_last() =~= s.subrange(
                    self.start as int,
                    self.current - 1,
                ));
            }
            if c == '\n' {
                lines = lines + 1;
            }
            if c == '"' {
                // The literal is what lies between the quotes
                let string_literal = string_from_chars(&self.chars, self.start + 1, self.current - 1);
                self.make_token(TokenType::String, Some(Literal::String(string_literal)));
                self.line = self.line + lines;
                return;
            }
        }

        // If we reach the end of the input without finding a closing quote, it's an error
        self.record_error(ScanError::UnterminatedString { line: self.line });
        self.line = self.line + lines;
    }
}

} // verus!
