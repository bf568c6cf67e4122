//! Tokens: keywords, token types, literal values and the token itself.
use vstd::prelude::*;
use crate::text::{shouty_snake_case, to_shouty_snake, str_to_chars};

verus! {

/// The reserved words of the language.
#[derive(Debug, Clone, Copy, PartialEq, Eq, Structural)]
pub enum Keyword {
    And,
    Break,
    Class,
    Continue,
    Else,
    False,
    For,
    Fun,
    If,
    Nil,
    Or,
    Print,
    Return,
    Static,
    Super,
    This,
    ThisClass,
    True,
    Var,
    While,
}

/// How a keyword is spelled in source text.
pub open spec fn keyword_text(k: Keyword) -> Seq<char> {
    match k {
        Keyword::And => seq!['a', 'n', 'd'],
        Keyword::Break => seq!['b', 'r', 'e', 'a', 'k'],
        Keyword::Class => seq!['c', 'l', 'a', 's', 's'],
        Keyword::Continue => seq!['c', 'o', 'n', 't', 'i', 'n', 'u', 'e'],
        Keyword::Else => seq!['e', 'l', 's', 'e'],
        Keyword::False => seq!['f', 'a', 'l', 's', 'e'],
        Keyword::For => seq!['f', 'o', 'r'],
        Keyword::Fun => seq!['f', 'u', 'n'],
        Keyword::If => seq!['i', 'f'],
        Keyword::Nil => seq!['n', 'i', 'l'],
        Keyword::Or => seq!['o', 'r'],
        Keyword::Print => seq!['p', 'r', 'i', 'n', 't'],
        Keyword::Return => seq!['r', 'e', 't', 'u', 'r', 'n'],
        Keyword::Static => seq!['s', 't', 'a', 't', 'i', 'c'],
        Keyword::Super => seq!['s', 'u', 'p', 'e', 'r'],
        Keyword::This => seq!['t', 'h', 'i', 's'],
        Keyword::ThisClass => seq!['T', 'h', 'i', 's'],
        Keyword::True => seq!['t', 'r', 'u', 'e'],
        Keyword::Var => seq!['v', 'a', 'r'],
        Keyword::While => seq!['w', 'h', 'i', 'l', 'e'],
    }
}

/// The keyword spelled by a text, if any.
pub open spec fn keyword_for(s: Seq<char>) -> Option<Keyword> {
    if s == keyword_text(Keyword::And) { Some(Keyword::And) }
    else if s == keyword_text(Keyword::Break) { Some(Keyword::Break) }
    else if s == keyword_text(Keyword::Class) { Some(Keyword::Class) }
    else if s == keyword_text(Keyword::Continue) { Some(Keyword::Continue) }
    else if s == keyword_text(Keyword::Else) { Some(Keyword::Else) }
    else if s == keyword_text(Keyword::False) { Some(Keyword::False) }
    else if s == keyword_text(Keyword::For) { Some(Keyword::For) }
    else if s == keyword_text(Keyword::Fun) { Some(Keyword::Fun) }
    else if s == keyword_text(Keyword::If) { Some(Keyword::If) }
    else if s == keyword_text(Keyword::Nil) { Some(Keyword::Nil) }
    else if s == keyword_text(Keyword::Or) { Some(Keyword::Or) }
    else if s == keyword_text(Keyword::Print) { Some(Keyword::Print) }
    else if s == keyword_text(Keyword::Return) { Some(Keyword::Return) }
    else if s == keyword_text(Keyword::Super) { Some(Keyword::Super) }
    else if s == keyword_text(Keyword::This) { Some(Keyword::This) }
    else if s == keyword_text(Keyword::ThisClass) { Some(Keyword::ThisClass) }
    else if s == keyword_text(Keyword::True) { Some(Keyword::True) }
    else if s == keyword_text(Keyword::Var) { Some(Keyword::Var) }
    else if s == keyword_text(Keyword::While) { Some(Keyword::While) }
    else if s == keyword_text(Keyword::Static) { Some(Keyword::Static) }
    else { None }
}

/// Every keyword is recognised from its own spelling, and a text is
/// recognised as a keyword only when it is that keyword's spelling.
pub proof fn lemma_keyword_spelling_roundtrip(k: Keyword, s: Seq<char>)
    ensures
        keyword_for(keyword_text(k)) == Some(k),
        keyword_for(s) == Some(k) ==> s == keyword_text(k),
{
    assert(keyword_for(keyword_text(k)) == Some(k)) by {
        match k {
            Keyword::And => {},
            Keyword::Break => { assert(keyword_text(Keyword::Break)[0] != keyword_text(Keyword::And)[0]); },
            _ => {},
        }
    }
}

/// Whether the characters are exactly those of a text.
fn chars_equal_text(cs: &Vec<char>, t: &str) -> (r: bool)
    ensures
        r == (cs@ == t@),
{
    let n = t.unicode_len();
    if cs.len() != n {
        return false;
    }
    let mut i: usize = 0;
    while i < n
        invariant
            n == t@.len(),
            cs@.len() == n,
            i <= n,
            forall|j: int| 0 <= j < i ==> cs@[j] == t@[j],
        decreases n - i,
    {
        if cs[i] != t.get_char(i) {
            return false;
        }
        i = i + 1;
    }
    assert(cs@ =~= t@);
    true
}

impl Keyword {
    /// The keyword spelled by `s`, or `None` when `s` is no keyword.
    pub fn from_str(s: &str) -> (r: Option<Keyword>)
        ensures
            r == keyword_for(s@),
    {
        proof {
            reveal_strlit("and");
            reveal_strlit("break");
            reveal_strlit("class");
            reveal_strlit("continue");
            reveal_strlit("else");
            reveal_strlit("false");
            reveal_strlit("for");
            reveal_strlit("fun");
            reveal_strlit("if");
            reveal_strlit("nil");
            reveal_strlit("or");
            reveal_strlit("print");
            reveal_strlit("return");
            reveal_strlit("super");
            reveal_strlit("this");
            reveal_strlit("This");
            reveal_strlit("true");
            reveal_strlit("var");
            reveal_strlit("while");
            reveal_strlit("static");
            assert("and"@ =~= keyword_text(Keyword::And));
            assert("break"@ =~= keyword_text(Keyword::Break));
            assert("class"@ =~= keyword_text(Keyword::Class));
            assert("continue"@ =~= keyword_text(Keyword::Continue));
            assert("else"@ =~= keyword_text(Keyword::Else));
            assert("false"@ =~= keyword_text(Keyword::False));
            assert("for"@ =~= keyword_text(Keyword::For));
            assert("fun"@ =~= keyword_text(Keyword::Fun));
            assert("if"@ =~= keyword_text(Keyword::If));
            assert("nil"@ =~= keyword_text(Keyword::Nil));
            assert("or"@ =~= keyword_text(Keyword::Or));
            assert("print"@ =~= keyword_text(Keyword::Print));
            assert("return"@ =~= keyword_text(Keyword::Return));
            assert("super"@ =~= keyword_text(Keyword::Super));
            assert("this"@ =~= keyword_text(Keyword::This));
            assert("This"@ =~= keyword_text(Keyword::ThisClass));
            assert("true"@ =~= keyword_text(Keyword::True));
            assert("var"@ =~= keyword_text(Keyword::Var));
            assert("while"@ =~= keyword_text(Keyword::While));
            assert("static"@ =~= keyword_text(Keyword::Static));
        }
        let cs = str_to_chars(s);
        if chars_equal_text(&cs, "and") {
            Some(Keyword::And)
        } else if chars_equal_text(&cs, "break") {
            Some(Keyword::Break)
        } else if chars_equal_text(&cs, "class") {
            Some(Keyword::Class)
        } else if chars_equal_text(&cs, "continue") {
            Some(Keyword::Continue)
        } else if chars_equal_text(&cs, "else") {
            Some(Keyword::Else)
        } else if chars_equal_text(&cs, "false") {
            Some(Keyword::False)
        } else if chars_equal_text(&cs, "for") {
            Some(Keyword::For)
        } else if chars_equal_text(&cs, "fun") {
            Some(Keyword::Fun)
        } else if chars_equal_text(&cs, "if") {
            Some(Keyword::If)
        } else if chars_equal_text(&cs, "nil") {
            Some(Keyword::Nil)
        } else if chars_equal_text(&cs, "or") {
            Some(Keyword::Or)
        } else if chars_equal_text(&cs, "print") {
            Some(Keyword::Print)
        } else if chars_equal_text(&cs, "return") {
            Some(Keyword::Return)
        } else if chars_equal_text(&cs, "super") {
            Some(Keyword::Super)
        } else if chars_equal_text(&cs, "this") {
            Some(Keyword::This)
        } else if chars_equal_text(&cs, "This") {
            Some(Keyword::ThisClass)
        } else if chars_equal_text(&cs, "true") {
            Some(Keyword::True)
        } else if chars_equal_text(&cs, "var") {
            Some(Keyword::Var)
        } else if chars_equal_text(&cs, "while") {
            Some(Keyword::While)
        } else if chars_equal_text(&cs, "static") {
            Some(Keyword::Static)
        } else {
            None
        }
    }

    /// The name of the variant, as `{:?}` writes it.
    pub fn debug_name(&self) -> (r: &'static str)
        ensures
            r@ == keyword_debug_name(*self),
    {
        match self {
            Keyword::And => "And",
            Keyword::Break => "Break",
            Keyword::Class => "Class",
            Keyword::Continue => "Continue",
            Keyword::Else => "Else",
            Keyword::False => "False",
            Keyword::For => "For",
            Keyword::Fun => "Fun",
            Keyword::If => "If",
            Keyword::Nil => "Nil",
            Keyword::Or => "Or",
            Keyword::Print => "Print",
            Keyword::Return => "Return",
            Keyword::Static => "Static",
            Keyword::Super => "Super",
            Keyword::This => "This",
            Keyword::ThisClass => "ThisClass",
            Keyword::True => "True",
            Keyword::Var => "Var",
            Keyword::While => "While",
        }
    }
}

/// The name of a keyword's variant.
pub open spec fn keyword_debug_name(k: Keyword) -> Seq<char> {
    match k {
        Keyword::And => "And"@,
        Keyword::Break => "Break"@,
        Keyword::Class => "Class"@,
        Keyword::Continue => "Continue"@,
        Keyword::Else => "Else"@,
        Keyword::False => "False"@,
        Keyword::For => "For"@,
        Keyword::Fun => "Fun"@,
        Keyword::If => "If"@,
        Keyword::Nil => "Nil"@,
        Keyword::Or => "Or"@,
        Keyword::Print => "Print"@,
        Keyword::Return => "Return"@,
        Keyword::Static => "Static"@,
        Keyword::Super => "Super"@,
        Keyword::This => "This"@,
        Keyword::ThisClass => "ThisClass"@,
        Keyword::True => "True"@,
        Keyword::Var => "Var"@,
        Keyword::While => "While"@,
    }
}

/// The kinds of token.
#[derive(Debug, Clone, Copy, PartialEq, Eq, Structural)]
pub enum TokenType {
    // Single-character tokens.
    LeftBrace,
    RightBrace,
    LeftParen,
    RightParen,
    Comma,
    Dot,
    Minus,
    Plus,
    Semicolon,
    Slash,
    Star,
    Eof,
    // Literals
    String,
    Number,
    // One or two character tokens.
    Equal,
    EqualEqual,
    Bang,
    BangEqual,
    Less,
    LessEqual,
    Greater,
    GreaterEqual,
    // Identifiers
    Identifier,
    // Keywords
    Keyword(Keyword),
}

/// The name a token type is known by before it is turned into upper snake
/// case: the variant's name, or the keyword's for a keyword.
pub open spec fn token_type_name(t: TokenType) -> Seq<char> {
    match t {
        TokenType::LeftBrace => "LeftBrace"@,
        TokenType::RightBrace => "RightBrace"@,
        TokenType::LeftParen => "LeftParen"@,
        TokenType::RightParen => "RightParen"@,
        TokenType::Comma => "Comma"@,
        TokenType::Dot => "Dot"@,
        TokenType::Minus => "Minus"@,
        TokenType::Plus => "Plus"@,
        TokenType::Semicolon => "Semicolon"@,
        TokenType::Slash => "Slash"@,
        TokenType::Star => "Star"@,
        TokenType::Eof => "Eof"@,
        TokenType::String => "String"@,
        TokenType::Number => "Number"@,
        TokenType::Equal => "Equal"@,
        TokenType::EqualEqual => "EqualEqual"@,
        TokenType::Bang => "Bang"@,
        TokenType::BangEqual => "BangEqual"@,
        TokenType::Less => "Less"@,
        TokenType::LessEqual => "LessEqual"@,
        TokenType::Greater => "Greater"@,
        TokenType::GreaterEqual => "GreaterEqual"@,
        TokenType::Identifier => "Identifier"@,
        TokenType::Keyword(k) => keyword_debug_name(k),
    }
}

/// The token type as `{:?}` writes it: the variant's name, and for a
/// keyword the keyword's in brackets after `Keyword`.
pub open spec fn token_type_debug(t: TokenType) -> Seq<char> {
    match t {
        TokenType::Keyword(k) => "Keyword("@ + keyword_debug_name(k) + ")"@,
        _ => token_type_name(t),
    }
}

impl TokenType {
    /// The name of the token type before case conversion.
    pub fn variant_name(&self) -> (r: &'static str)
        ensures
            r@ == token_type_name(*self),
    {
        match self {
            TokenType::LeftBrace => "LeftBrace",
            TokenType::RightBrace => "RightBrace",
            TokenType::LeftParen => "LeftParen",
            TokenType::RightParen => "RightParen",
            TokenType::Comma => "Comma",
            TokenType::Dot => "Dot",
            TokenType::Minus => "Minus",
            TokenType::Plus => "Plus",
            TokenType::Semicolon => "Semicolon",
            TokenType::Slash => "Slash",
            TokenType::Star => "Star",
            TokenType::Eof => "Eof",
            TokenType::String => "String",
            TokenType::Number => "Number",
            TokenType::Equal => "Equal",
            TokenType::EqualEqual => "EqualEqual",
            TokenType::Bang => "Bang",
            TokenType::BangEqual => "BangEqual",
            TokenType::Less => "Less",
            TokenType::LessEqual => "LessEqual",
            TokenType::Greater => "Greater",
            TokenType::GreaterEqual => "GreaterEqual",
            TokenType::Identifier => "Identifier",
            TokenType::Keyword(k) => k.debug_name(),
        }
    }

    /// The token type as `{:?}` writes it.
    pub fn debug_text(&self) -> (r: String)
        ensures
            r@ == token_type_debug(*self),
    {
        match self {
            TokenType::Keyword(k) => {
                let mut m = String::from_str("Keyword(");
                crate::text::append_str(&mut m, k.debug_name());
                crate::text::append_str(&mut m, ")");
                m
            },
            _ => String::from_str(self.variant_name()),
        }
    }

    /// The token type as the token listing shows it: its name in upper snake
    /// case (`LEFT_BRACE`, `NUMBER`, `AND`, ...).
    pub fn to_string(&self) -> (r: String)
        ensures
            r@ == shouty_snake_case(token_type_name(*self)),
    {
        to_shouty_snake(self.variant_name())
    }
}

/// The value a literal token carries. A number is held as the bit pattern
/// of the IEEE-754 double that its numeral denotes.
#[derive(Debug, Clone, PartialEq)]
pub enum Literal {
    String(String),
    Number(u64),
    Boolean(bool),
    Nil,
}

/// The mathematical view of a literal.
pub enum LiteralView {
    String(Seq<char>),
    Number(u64),
    Boolean(bool),
    Nil,
}

impl View for Literal {
    type V = LiteralView;

    open spec fn view(&self) -> LiteralView {
        match self {
            Literal::String(s) => LiteralView::String(s@),
            Literal::Number(n) => LiteralView::Number(*n),
            Literal::Boolean(b) => LiteralView::Boolean(*b),
            Literal::Nil => LiteralView::Nil,
        }
    }
}

impl Literal {
    /// A copy of the literal.
    pub fn copy(&self) -> (r: Literal)
        ensures
            r == *self,
    {
        match self {
            Literal::String(s) => Literal::String(s.clone()),
            Literal::Number(n) => Literal::Number(*n),
            Literal::Boolean(b) => Literal::Boolean(*b),
            Literal::Nil => Literal::Nil,
        }
    }
}

/// A token: its type, the source text it was made from, the literal value
/// it carries (if any) and the line it was found on.
#[derive(Debug, Clone, PartialEq)]
pub struct Token {
    pub token_type: TokenType,
    pub lexeme: String,
    pub literal: Option<Literal>,
    pub line: usize,
}

/// The mathematical view of a token.
pub struct TokenView {
    pub token_type: TokenType,
    pub lexeme: Seq<char>,
    pub literal: Option<LiteralView>,
    pub line: usize,
}

/// The view of an optional literal.
pub open spec fn literal_view(l: Option<Literal>) -> Option<LiteralView> {
    match l {
        Some(lit) => Some(lit@),
        None => None,
    }
}

impl View for Token {
    type V = TokenView;

    open spec fn view(&self) -> TokenView {
        TokenView {
            token_type: self.token_type,
            lexeme: self.lexeme@,
            literal: literal_view(self.literal),
            line: self.line,
        }
    }
}

/// The views of a sequence of tokens.
pub open spec fn tokens_view(ts: Seq<Token>) -> Seq<TokenView> {
    ts.map_values(|t: Token| t@)
}

impl Token {
    /// A token made of its four parts.
    pub fn new(token_type: TokenType, lexeme: String, literal: Option<Literal>, line: usize) -> (r: Self)
        ensures
            r.token_type == token_type,
            r.lexeme == lexeme,
            r.literal == literal,
            r.line == line,
    {
        Token { token_type, lexeme, literal, line }
    }

    /// A copy of the token.
    pub fn copy(&self) -> (r: Token)
        ensures
            r == *self,
    {
        let literal = match &self.literal {
            Some(l) => Some(l.copy()),
            None => None,
        };
        Token { token_type: self.token_type, lexeme: self.lexeme.clone(), literal, line: self.line }
    }
}

} // verus!
