use rust_interpreter::{scan, AstPrinter, Expr, Parser, Piece, TokenType};

/// Writes printed pieces out, a number as a literal is written: with one
/// decimal place when it is integral.
fn render(pieces: &[Piece]) -> String {
    let mut out = String::new();
    for p in pieces {
        match p {
            Piece::Text(s) => out.push_str(s),
            Piece::Number(bits) => {
                let n = f64::from_bits(*bits);
                if n.fract() == 0.0 {
                    out.push_str(&format!("{:.1}", n));
                } else {
                    out.push_str(&format!("{}", n));
                }
            },
        }
    }
    out
}

#[test]
fn parse_simple_addition_expression() {
    let input = "1 + 2;";
    let tokens = scan(input);
    let mut parser = Parser::new(tokens.tokens);
    let expr = parser.expression().unwrap_or_else(|e| panic!("parse error: {}", e.to_string()));
    match expr {
        Expr::Binary { operator, .. } => {
            assert!(matches!(operator.token_type, TokenType::Plus));
        },
        _ => panic!("expected binary expression"),
    }
}

#[test]
fn parse_error_on_invalid_expression() {
    let input = "1 + ;";
    let tokens = scan(input);
    let mut parser = Parser::new(tokens.tokens);

    // This should result in a parse error (Result::Err)
    let result = parser.expression();
    assert!(result.is_err());
}

#[test]
fn parse_math_expression() {
    let input = "1 + 2 * 4 - 8 + 9 / 2.99 + (3 - (4 / 2));";
    let tokens = scan(input);
    let mut parser = Parser::new(tokens.tokens);
    let expr = parser.expression().unwrap_or_else(|e| panic!("parse error: {}", e.to_string()));

    // Use AstPrinter to get the string representation of the AST
    assert!(matches!(
        render(&AstPrinter::new().print_to_string(&expr)).as_str(),
        "(+ (+ (- (+ 1.0 (* 2.0 4.0)) 8.0) (/ 9.0 2.99)) (group (- 3.0 (group (/ 4.0 2.0)))))"
    ));
}

#[test]
fn parse_error_reports_line_and_token() {
    let tokens = scan("var = 1;");
    let mut parser = Parser::new(tokens.tokens);
    let statements = parser.parse();
    assert_eq!(statements.len(), 0);
    assert_eq!(parser.errors.len(), 1);
    assert_eq!(parser.errors[0].to_string(), "[line 1] Error at '=': Expect variable name.");
}

#[test]
fn parse_error_at_end_of_input() {
    let tokens = scan("(1 + 2");
    let mut parser = Parser::new(tokens.tokens);
    let err = parser.expression().err().expect("an error");
    assert_eq!(err.message, "Error at end: Expect expression.");
}

#[test]
fn parser_recovers_after_an_error() {
    let tokens = scan("var = 1; print 2; var x = 3;");
    let mut parser = Parser::new(tokens.tokens);
    let statements = parser.parse();
    assert_eq!(statements.len(), 2);
    assert_eq!(parser.errors.len(), 1);
}

#[test]
fn invalid_assignment_target() {
    let tokens = scan("1 = 2;");
    let mut parser = Parser::new(tokens.tokens);
    let err = parser.expression().err().expect("an error");
    assert_eq!(err.message, "Error at '=': Invalid assignment target.");
}

#[test]
fn for_loop_is_desugared_and_printed() {
    let tokens = scan("for (var i = 0; i < 2; i = i + 1) print i;");
    let mut parser = Parser::new(tokens.tokens);
    let statements = parser.parse();
    assert_eq!(statements.len(), 1);
    let mut printer = AstPrinter::new();
    let line = render(&printer.print_statement(&statements[0]));
    assert_eq!(
        line,
        "(block (var i = 0.0) (while (< (var i) 2.0) (block (print (var i)) (expr (assign i (+ (var i) 1.0))))))"
    );
}

#[test]
fn printer_prints_statements_and_classes() {
    let tokens = scan("class A { m(x) { return this.f; } } fun g() { return; } var v; if (true) print \"s\"; else print nil;");
    let mut parser = Parser::new(tokens.tokens);
    let statements = parser.parse();
    assert_eq!(parser.errors.len(), 0);
    let mut printer = AstPrinter::new();
    let lines: Vec<String> = printer.print_statements(&statements).iter().map(|l| render(l)).collect();
    assert_eq!(
        lines,
        vec![
            "(class A  (fun m (x) (return (get (this this) .f))))",
            "(fun g () (return))",
            "(var v = nil)",
            "(if true (print s) (print nil))",
        ]
    );
}

#[test]
fn colored_printer_colors_parentheses_by_depth() {
    let tokens = scan("-(1)");
    let mut parser = Parser::new(tokens.tokens);
    let expr = parser.expression().unwrap_or_else(|e| panic!("parse error: {}", e.to_string()));
    let mut printer = AstPrinter::new_colored();
    assert_eq!(printer.color_code(0), "\x1b[31m");
    assert_eq!(printer.color_code(7), "\x1b[32m");
    assert_eq!(printer.colored_open(2), "\x1b[33m(\x1b[0m");
    assert_eq!(printer.colored_close(5), "\x1b[36m)\x1b[0m");
    let line = render(&printer.print_to_string(&expr));
    assert_eq!(line, "\x1b[31m(\x1b[0m- \x1b[32m(\x1b[0mgroup 1.0\x1b[32m)\x1b[0m\x1b[31m)\x1b[0m");
    let plain = AstPrinter::new();
    assert_eq!(plain.color_code(3), "");
    assert_eq!(plain.get_open_close(), ("(".to_string(), ")".to_string()));
}

#[test]
fn lambda_and_call_are_parsed() {
    let tokens = scan("f(fun (a, b) { return a; }, 2)");
    let mut parser = Parser::new(tokens.tokens);
    let expr = parser.expression().unwrap_or_else(|e| panic!("parse error: {}", e.to_string()));
    let line = render(&AstPrinter::new().print_to_string(&expr));
    assert_eq!(line, "(call (var f) (lambda (a b) (return (var a))) 2.0)");
}

/// Removes every color code (escape, `[`, digits, `m`) from a text.
fn strip_codes(s: &str) -> String {
    let chars: Vec<char> = s.chars().collect();
    let mut out = String::new();
    let mut i = 0;
    while i < chars.len() {
        if chars[i] == '\x1b' && i + 1 < chars.len() && chars[i + 1] == '[' {
            let mut j = i + 2;
            while j < chars.len() && chars[j].is_ascii_digit() {
                j += 1;
            }
            if j < chars.len() && chars[j] == 'm' && j > i + 2 {
                i = j + 1;
                continue;
            }
        }
        out.push(chars[i]);
        i += 1;
    }
    out
}

#[test]
fn colored_output_without_codes_is_plain_output() {
    let tokens = scan("a = f(1, -(2 + x.y), \"s\") or this.z and !false");
    let mut parser = Parser::new(tokens.tokens);
    let expr = parser.expression().unwrap_or_else(|e| panic!("parse error: {}", e.to_string()));
    let colored = render(&AstPrinter::new_colored().print_to_string(&expr));
    let plain = render(&AstPrinter::new().print_to_string(&expr));
    assert!(colored.contains('\x1b'));
    assert_eq!(strip_codes(&colored), plain);
}
