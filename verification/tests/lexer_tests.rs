use rust_interpreter::ast::printer::token_pieces;
use rust_interpreter::{scan, Keyword, Literal, Piece, ScanError, TokenType};

#[test]
fn scan_ends_with_eof() {
    let tokens = scan("var x = 1;");
    let types: Vec<TokenType> = tokens.tokens.iter().map(|t| t.token_type).collect();
    assert_eq!(
        types,
        vec![
            TokenType::Keyword(Keyword::Var),
            TokenType::Identifier,
            TokenType::Equal,
            TokenType::Number,
            TokenType::Semicolon,
            TokenType::Eof,
        ]
    );
    assert!(tokens.errors.is_empty());
    let empty = scan("");
    assert_eq!(empty.tokens.len(), 1);
    assert_eq!(empty.tokens[0].token_type, TokenType::Eof);
}

#[test]
fn numbers_strings_and_lines() {
    let tokens = scan("12.5 \"hi\"\n// note\nfoo_1");
    assert_eq!(tokens.tokens[0].literal, Some(Literal::Number(12.5f64.to_bits())));
    assert_eq!(tokens.tokens[1].literal, Some(Literal::String("hi".to_string())));
    assert_eq!(tokens.tokens[1].lexeme, "\"hi\"");
    assert_eq!(tokens.tokens[2].token_type, TokenType::Identifier);
    assert_eq!(tokens.tokens[2].lexeme, "foo_1");
    assert_eq!(tokens.tokens[2].line, 3);
}

#[test]
fn two_character_operators() {
    let tokens = scan("!= == <= >= < > ! =");
    let types: Vec<TokenType> = tokens.tokens.iter().map(|t| t.token_type).collect();
    assert_eq!(
        types,
        vec![
            TokenType::BangEqual,
            TokenType::EqualEqual,
            TokenType::LessEqual,
            TokenType::GreaterEqual,
            TokenType::Less,
            TokenType::Greater,
            TokenType::Bang,
            TokenType::Equal,
            TokenType::Eof,
        ]
    );
}

#[test]
fn lexical_errors_are_collected() {
    let tokens = scan("@ \"open");
    assert_eq!(tokens.errors.len(), 2);
    assert!(matches!(tokens.errors[0], ScanError::UnexpectedCharacter { line: 1, character: '@' }));
    assert!(matches!(tokens.errors[1], ScanError::UnterminatedString { line: 1 }));
}

#[test]
fn keywords_round_trip() {
    for word in ["and", "class", "else", "false", "for", "fun", "if", "nil", "or", "print", "return", "super", "this", "true", "var", "while"] {
        let k = Keyword::from_str(word).expect("a keyword");
        let tokens = scan(word);
        assert_eq!(tokens.tokens[0].token_type, TokenType::Keyword(k));
    }
    assert_eq!(Keyword::from_str("classy"), None);
    assert_eq!(Keyword::from_str(""), None);
}

#[test]
fn token_type_names_are_upper_snake_case() {
    assert_eq!(TokenType::LeftParen.to_string(), "LEFT_PAREN");
    assert_eq!(TokenType::GreaterEqual.to_string(), "GREATER_EQUAL");
    assert_eq!(TokenType::Keyword(Keyword::While).to_string(), "WHILE");
    assert_eq!(TokenType::Eof.to_string(), "EOF");
}

#[test]
fn boolean_and_nil_keywords_carry_literals() {
    let tokens = scan("true false nil");
    assert_eq!(tokens.tokens[0].literal, Some(Literal::Boolean(true)));
    assert_eq!(tokens.tokens[1].literal, Some(Literal::Boolean(false)));
    assert_eq!(tokens.tokens[2].literal, Some(Literal::Nil));
}

#[test]
fn token_listing_shows_type_lexeme_and_literal() {
    let tokens = scan("var s = \"hi\"; 3");
    let lines: Vec<Vec<String>> = tokens
        .tokens
        .iter()
        .map(|t| {
            token_pieces(t)
                .into_iter()
                .map(|p| match p {
                    Piece::Text(s) => s,
                    Piece::Number(b) => format!("#{}", f64::from_bits(b)),
                })
                .collect()
        })
        .collect();
    assert_eq!(lines[0], vec!["VAR var ".to_string(), "null".to_string()]);
    assert_eq!(lines[3], vec!["STRING \"hi\" ".to_string(), "hi".to_string()]);
    assert_eq!(lines[5], vec!["NUMBER 3 ".to_string(), "#3".to_string()]);
    assert_eq!(lines[6], vec!["EOF  ".to_string(), "null".to_string()]);
}

#[test]
fn numerals_with_two_dots_are_malformed() {
    let tokens = scan("1.2.3");
    assert_eq!(tokens.errors.len(), 1);
    assert!(matches!(&tokens.errors[0], ScanError::MalformedNumber { line: 1, lexeme } if lexeme == "1.2.3"));
}

#[test]
fn newlines_inside_strings_count() {
    let tokens = scan("// c\n\"a\nb\" x");
    assert_eq!(tokens.tokens.len(), 3);
    assert_eq!(tokens.tokens[0].literal, Some(Literal::String("a\nb".to_string())));
    assert_eq!(tokens.tokens[0].line, 2);
    assert_eq!(tokens.tokens[1].lexeme, "x");
    assert_eq!(tokens.tokens[1].line, 3);
    assert_eq!(tokens.tokens[2].token_type, TokenType::Eof);
    assert_eq!(tokens.tokens[2].line, 3);
    let unterminated = scan("\"a\nb");
    assert_eq!(unterminated.errors, vec![ScanError::UnterminatedString { line: 1 }]);
    assert_eq!(unterminated.tokens[0].line, 2);
}

#[test]
fn scan_errors_report_their_line() {
    let tokens = scan("1\n@");
    assert_eq!(tokens.errors[0].to_string(), "[line 2] Error: Unexpected character: @");
    let unterminated = scan("\"abc");
    assert_eq!(unterminated.errors[0].to_string(), "[line 1] Scanning Error: Unterminated string.");
}

#[test]
fn unicode_spaces_separate_tokens() {
    let tokens = scan("1\u{3000}2\u{a0}3");
    let types: Vec<TokenType> = tokens.tokens.iter().map(|t| t.token_type).collect();
    assert_eq!(types, vec![TokenType::Number, TokenType::Number, TokenType::Number, TokenType::Eof]);
    assert!(tokens.errors.is_empty());
}

#[test]
fn token_types_debug_as_variants() {
    assert_eq!(TokenType::Keyword(Keyword::And).debug_text(), "Keyword(And)");
    assert_eq!(TokenType::Plus.debug_text(), "Plus");
}
