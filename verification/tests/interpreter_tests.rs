use rust_interpreter::runtime::function::Function;
use rust_interpreter::{scan, ControlFlow, Expr, Interpreter, Parser, Resolver, Statement, Value};

fn parse_expr(input: &str) -> Expr {
    let tokens = scan(input);
    let mut parser = Parser::new(tokens.tokens);
    parser.expression().unwrap_or_else(|e| panic!("parse error: {}", e.to_string()))
}

fn parse_stmts(input: &str) -> Vec<Statement> {
    let tokens = scan(input);
    let mut parser = Parser::new(tokens.tokens);
    let mut statements = parser.parse();
    let mut resolver = Resolver::new();
    resolver.resolve_statements(&mut statements).unwrap_or_else(|e| panic!("resolve error: {}", e.to_string()));
    statements
}

#[test]
fn evaluate_addition() {
    let expr = parse_expr("1 + 2");
    let mut interpreter = Interpreter::new();
    let v = interpreter.visit_expression(&expr).unwrap_or_else(|_| panic!("eval error"));
    match v {
        Value::Integer(n) => assert_eq!(n, 3),
        other => panic!("unexpected value: {:?}", other),
    }
}

#[test]
fn evaluate_unary_minus() {
    let expr = parse_expr("-5");
    let mut interpreter = Interpreter::new();
    let v = interpreter.visit_expression(&expr).unwrap_or_else(|_| panic!("eval error"));
    match v {
        Value::Integer(n) => assert_eq!(n, -5),
        other => panic!("unexpected value: {:?}", other),
    }
}

#[test]
fn evaluate_logic_not_truthiness() {
    let expr = parse_expr("!123");
    let mut interpreter = Interpreter::new();
    let v = interpreter.visit_expression(&expr).unwrap_or_else(|_| panic!("eval error"));
    match v {
        Value::Bool(b) => assert_eq!(b, false),
        other => panic!("unexpected value: {:?}", other),
    }
}

#[test]
fn evaluate_variable_lookup() {
    let expr = parse_expr("a");
    let mut interpreter = Interpreter::new();
    // define variable in environment
    interpreter.define("a".to_string(), Value::Integer(42));
    let v = interpreter.visit_expression(&expr).unwrap_or_else(|_| panic!("eval error"));
    match v {
        Value::Integer(n) => assert_eq!(n, 42),
        other => panic!("unexpected value: {:?}", other),
    }
}

#[test]
fn function_call_returns_sum() {
    // Parse a function declaration
    let statements = parse_stmts(
        "
        fun add(x, y) {
            return x + y;
        }
        ",
    );
    // Make sure we have only one statement which is the function declaration
    assert!(statements.len() == 1, "expected one statement");
    let stmt = statements.into_iter().next().expect("one statement expected");

    let mut interpreter = Interpreter::new();
    // bind in current environment
    let env = interpreter.environment();

    // Build function from statement
    let func = Function::from_statement(&stmt, env, false).unwrap_or_else(|_| panic!("function build error"));

    // Call the function with args
    let result = interpreter.call_function(&func, vec![Value::Float(2.0f64.to_bits()), Value::Float(3.0f64.to_bits())]);
    match result {
        Ok(value) => assert!(matches!(value, Value::Float(n) if f64::from_bits(n) == 5.0)),
        Err(control_flow) => {
            panic!("unexpected control flow: {:?}", control_flow);
        },
    }
}

#[test]
fn evaluate_string_concatenation() {
    let expr = parse_expr("\"hello\" + \" world\"");
    let mut interpreter = Interpreter::new();
    let v = interpreter.visit_expression(&expr).unwrap_or_else(|_| panic!("eval error"));
    match v {
        Value::Str(s) => assert_eq!(s, "hello world"),
        other => panic!("unexpected value: {:?}", other),
    }
}

#[test]
fn evaluate_multiplication_and_division() {
    let expr = parse_expr("6 * 7");
    let mut interpreter = Interpreter::new();
    let v = interpreter.visit_expression(&expr).unwrap_or_else(|_| panic!("eval error"));
    match v {
        Value::Integer(n) => assert_eq!(n, 42),
        other => panic!("unexpected value: {:?}", other),
    }

    let expr = parse_expr("20 / 4");
    let mut interpreter = Interpreter::new();
    let v = interpreter.visit_expression(&expr).unwrap_or_else(|_| panic!("eval error"));
    match v {
        Value::Float(n) => assert_eq!(f64::from_bits(n), 5.0),
        other => panic!("unexpected value: {:?}", other),
    }
}

#[test]
fn evaluate_comparison_operators() {
    let expr = parse_expr("5 > 3");
    let mut interpreter = Interpreter::new();
    let v = interpreter.visit_expression(&expr).unwrap_or_else(|_| panic!("eval error"));
    match v {
        Value::Bool(b) => assert_eq!(b, true),
        other => panic!("unexpected value: {:?}", other),
    }

    let expr = parse_expr("2 <= 10");
    let mut interpreter = Interpreter::new();
    let v = interpreter.visit_expression(&expr).unwrap_or_else(|_| panic!("eval error"));
    match v {
        Value::Bool(b) => assert_eq!(b, true),
        other => panic!("unexpected value: {:?}", other),
    }

    let expr = parse_expr("7 == 7");
    let mut interpreter = Interpreter::new();
    let v = interpreter.visit_expression(&expr).unwrap_or_else(|_| panic!("eval error"));
    match v {
        Value::Bool(b) => assert_eq!(b, true),
        other => panic!("unexpected value: {:?}", other),
    }
}

#[test]
fn evaluate_logical_operators() {
    let expr = parse_expr("true and false");
    let mut interpreter = Interpreter::new();
    let v = interpreter.visit_expression(&expr).unwrap_or_else(|_| panic!("eval error"));
    match v {
        Value::Bool(b) => assert_eq!(b, false),
        other => panic!("unexpected value: {:?}", other),
    }

    let expr = parse_expr("true or false");
    let mut interpreter = Interpreter::new();
    let v = interpreter.visit_expression(&expr).unwrap_or_else(|_| panic!("eval error"));
    match v {
        Value::Bool(b) => assert_eq!(b, true),
        other => panic!("unexpected value: {:?}", other),
    }
}

#[test]
fn evaluate_grouped_expressions() {
    let expr = parse_expr("(1 + 2) * 3");
    let mut interpreter = Interpreter::new();
    let v = interpreter.visit_expression(&expr).unwrap_or_else(|_| panic!("eval error"));
    match v {
        Value::Integer(n) => assert_eq!(n, 9),
        other => panic!("unexpected value: {:?}", other),
    }
}

#[test]
fn evaluate_nil_value() {
    let expr = parse_expr("nil");
    let mut interpreter = Interpreter::new();
    let v = interpreter.visit_expression(&expr).unwrap_or_else(|_| panic!("eval error"));
    match v {
        Value::Nil => {},
        other => panic!("unexpected value: {:?}", other),
    }
}

#[test]
fn evaluate_subtraction() {
    let expr = parse_expr("10 - 3");
    let mut interpreter = Interpreter::new();
    let v = interpreter.visit_expression(&expr).unwrap_or_else(|_| panic!("eval error"));
    match v {
        Value::Integer(n) => assert_eq!(n, 7),
        other => panic!("unexpected value: {:?}", other),
    }
}

#[test]
fn evaluate_nested_arithmetic() {
    let expr = parse_expr("2 * 3 + 4 * 5");
    let mut interpreter = Interpreter::new();
    let v = interpreter.visit_expression(&expr).unwrap_or_else(|_| panic!("eval error"));
    match v {
        Value::Integer(n) => assert_eq!(n, 26),
        other => panic!("unexpected value: {:?}", other),
    }
}

#[test]
fn evaluate_inequality() {
    let expr = parse_expr("5 != 3");
    let mut interpreter = Interpreter::new();
    let v = interpreter.visit_expression(&expr).unwrap_or_else(|_| panic!("eval error"));
    match v {
        Value::Bool(b) => assert_eq!(b, true),
        other => panic!("unexpected value: {:?}", other),
    }

    let expr = parse_expr("7 != 7");
    let mut interpreter = Interpreter::new();
    let v = interpreter.visit_expression(&expr).unwrap_or_else(|_| panic!("eval error"));
    match v {
        Value::Bool(b) => assert_eq!(b, false),
        other => panic!("unexpected value: {:?}", other),
    }
}

#[test]
fn evaluate_boolean_literals() {
    let expr = parse_expr("true");
    let mut interpreter = Interpreter::new();
    let v = interpreter.visit_expression(&expr).unwrap_or_else(|_| panic!("eval error"));
    match v {
        Value::Bool(b) => assert_eq!(b, true),
        other => panic!("unexpected value: {:?}", other),
    }

    let expr = parse_expr("false");
    let mut interpreter = Interpreter::new();
    let v = interpreter.visit_expression(&expr).unwrap_or_else(|_| panic!("eval error"));
    match v {
        Value::Bool(b) => assert_eq!(b, false),
        other => panic!("unexpected value: {:?}", other),
    }
}

#[test]
fn evaluate_program_with_classes_and_closures() {
    let statements = parse_stmts(
        "
        class Counter {
            init(start) { this.count = start; }
            bump() { this.count = this.count + 1; return this.count; }
        }
        fun make_adder(n) {
            fun add(x) { return x + n; }
            return add;
        }
        var c = Counter(10);
        c.bump();
        print c.bump();
        var add2 = make_adder(2);
        print add2(40);
        var total = 0;
        for (var i = 0; i < 4; i = i + 1) { total = total + i; }
        print total;
        print c;
        print Counter;
        print \"a\" + \"b\";
        ",
    );
    let mut interpreter = Interpreter::new();
    interpreter.interpret(&statements).unwrap_or_else(|e| panic!("runtime error: {}", e.to_string()));
    let out: Vec<String> = interpreter
        .take_output()
        .into_iter()
        .map(|p| match p {
            rust_interpreter::Printed::Text(s) => s,
            rust_interpreter::Printed::Float(bits) => format!("{}", f64::from_bits(bits)),
        })
        .collect();
    assert_eq!(out, vec!["12", "42", "6", "<instance of Counter>", "<class Counter>", "ab"]);
}

#[test]
fn runtime_errors_carry_line_and_message() {
    let expr = parse_expr("1 - \"a\"");
    let mut interpreter = Interpreter::new();
    match interpreter.visit_expression(&expr) {
        Err(ControlFlow::RuntimeError(e)) => {
            assert_eq!(e.line, 1);
            assert_eq!(e.message, "Error at '-': Operands must be two numbers for '-'");
            assert_eq!(e.to_string(), "Error at '-': Operands must be two numbers for '-'\n[line 1]");
        },
        other => panic!("unexpected result: {:?}", other),
    }
    let expr = parse_expr("undefined_name");
    let mut interpreter = Interpreter::new();
    match interpreter.visit_expression(&expr) {
        Err(ControlFlow::RuntimeError(e)) => assert_eq!(e.message, "Undefined variable 'undefined_name'."),
        other => panic!("unexpected result: {:?}", other),
    }
}

#[test]
fn integer_overflow_is_an_error() {
    let expr = parse_expr("9223372036854775807 + 1");
    let mut interpreter = Interpreter::new();
    match interpreter.visit_expression(&expr) {
        Err(ControlFlow::RuntimeError(e)) => assert_eq!(e.message, "Error at '+': Integer overflow."),
        other => panic!("unexpected result: {:?}", other),
    }
}

#[test]
fn mixed_arithmetic_is_float() {
    let expr = parse_expr("1 + 0.5");
    let mut interpreter = Interpreter::new();
    match interpreter.visit_expression(&expr) {
        Ok(Value::Float(bits)) => assert_eq!(f64::from_bits(bits), 1.5),
        other => panic!("unexpected result: {:?}", other),
    }
    let expr = parse_expr("-2.5");
    let mut interpreter = Interpreter::new();
    match interpreter.visit_expression(&expr) {
        Ok(Value::Float(bits)) => assert_eq!(f64::from_bits(bits), -2.5),
        other => panic!("unexpected result: {:?}", other),
    }
    let expr = parse_expr("2.5 * 4 - 1");
    let mut interpreter = Interpreter::new();
    match interpreter.visit_expression(&expr) {
        Ok(Value::Float(bits)) => assert_eq!(f64::from_bits(bits), 9.0),
        other => panic!("unexpected result: {:?}", other),
    }
}

#[test]
fn clock_returns_seconds() {
    let expr = parse_expr("clock()");
    let mut interpreter = Interpreter::new();
    match interpreter.visit_expression(&expr) {
        Ok(Value::Float(bits)) => assert!(f64::from_bits(bits) > 1.0e9),
        other => panic!("unexpected result: {:?}", other),
    }
}

#[test]
fn arity_is_checked() {
    let statements = parse_stmts("fun f(a) { return a; } f(1, 2);");
    let mut interpreter = Interpreter::new();
    match interpreter.interpret(&statements) {
        Err(e) => assert_eq!(e.message, "Error at ')': Expected 1 arguments but got 2."),
        Ok(()) => panic!("expected an arity error"),
    }
}

#[test]
fn assignment_yields_the_value_and_rebinds() {
    let statements = parse_stmts("var a = 1; print a = 2; print a; { var a = 5; a = 6; print a; } print a;");
    let mut interpreter = Interpreter::new();
    interpreter.interpret(&statements).unwrap_or_else(|e| panic!("runtime error: {}", e.to_string()));
    let out: Vec<String> = interpreter
        .take_output()
        .into_iter()
        .map(|p| match p {
            rust_interpreter::Printed::Text(s) => s,
            rust_interpreter::Printed::Float(bits) => format!("{}", f64::from_bits(bits)),
        })
        .collect();
    assert_eq!(out, vec!["2", "2", "6", "2"]);
}

#[test]
fn assignment_to_an_undeclared_name_is_an_error() {
    let expr = parse_expr("b = 1");
    let mut interpreter = Interpreter::new();
    match interpreter.visit_expression(&expr) {
        Err(ControlFlow::RuntimeError(e)) => assert_eq!(e.message, "Undefined variable 'b'."),
        other => panic!("unexpected result: {:?}", other),
    }
}

#[test]
fn empty_program_and_empty_block() {
    let statements: Vec<Statement> = Vec::new();
    let mut interpreter = Interpreter::new();
    assert!(interpreter.interpret(&statements).is_ok());
    match interpreter.visit_block_statement(&statements) {
        Ok(Value::Nil) => {},
        other => panic!("unexpected result: {:?}", other),
    }
    assert!(interpreter.take_output().is_empty());
}

#[test]
fn calling_an_empty_function_gives_nil_or_this() {
    let body: Vec<Statement> = Vec::new();
    let mut interpreter = Interpreter::new();
    let f = Function::new(String::from("f"), vec![String::from("x")], &body, 0, false);
    match interpreter.call_function(&f, vec![Value::Integer(1)]) {
        Ok(Value::Nil) => {},
        other => panic!("unexpected result: {:?}", other),
    }
    let init = Function::new(String::from("init"), Vec::new(), &body, 0, true);
    match interpreter.call_function(&init, Vec::new()) {
        Err(ControlFlow::RuntimeError(e)) => assert_eq!(e.message, "Undefined variable 'this'."),
        other => panic!("unexpected result: {:?}", other),
    }
    interpreter.define(String::from("this"), Value::Instance(0));
    match interpreter.call_function(&init, Vec::new()) {
        Ok(Value::Instance(0)) => {},
        other => panic!("unexpected result: {:?}", other),
    }
}

fn printed_lines(interpreter: &mut Interpreter) -> Vec<String> {
    interpreter
        .take_output()
        .into_iter()
        .map(|p| match p {
            rust_interpreter::Printed::Text(s) => s,
            rust_interpreter::Printed::Float(bits) => format!("{}", f64::from_bits(bits)),
        })
        .collect()
}

#[test]
fn while_loops_and_returns() {
    let statements = parse_stmts(
        "var i = 0; while (i < 3) { print i; i = i + 1; } fun f(n) { while (true) { if (n > 2) return n; n = n + 1; } } print f(0);",
    );
    let mut interpreter = Interpreter::new();
    interpreter.interpret(&statements).unwrap_or_else(|e| panic!("runtime error: {}", e.to_string()));
    assert_eq!(printed_lines(&mut interpreter), vec!["0", "1", "2", "3"]);
}

#[test]
fn undefined_property_is_an_error() {
    let statements = parse_stmts("class A {} var a = A(); print a.missing;");
    let mut interpreter = Interpreter::new();
    match interpreter.interpret(&statements) {
        Err(e) => assert_eq!(e.message, "Undefined property 'missing'."),
        Ok(()) => panic!("expected an error"),
    }
}

#[test]
fn program_stops_at_first_runtime_error() {
    let statements = parse_stmts("print 1; print nope; print 2;");
    let mut interpreter = Interpreter::new();
    match interpreter.interpret(&statements) {
        Err(e) => assert_eq!(e.message, "Undefined variable 'nope'."),
        Ok(()) => panic!("expected an error"),
    }
    assert_eq!(printed_lines(&mut interpreter), vec!["1"]);
}

#[test]
fn control_flow_functions_and_classes_print() {
    let statements = parse_stmts(
        "if (true) print 1; else print 2; if (false) print 3; { var b = 4; print b; } fun g() { return 5; } print g(); class C { init() { this.v = 6; } } print C().v; print -(7.5);",
    );
    let mut interpreter = Interpreter::new();
    interpreter.interpret(&statements).unwrap_or_else(|e| panic!("runtime error: {}", e.to_string()));
    assert_eq!(printed_lines(&mut interpreter), vec!["1", "4", "5", "6", "-7.5"]);
}

#[test]
fn float_comparisons_follow_ieee() {
    let statements = parse_stmts(
        "print -1.5 < 2.5; print -0.0 == 0.0; print 0.0 / 0.0 == 0.0 / 0.0; print 2.5 > -3.5; print -2.5 < -1.5;",
    );
    let mut interpreter = Interpreter::new();
    interpreter.interpret(&statements).unwrap_or_else(|e| panic!("runtime error: {}", e.to_string()));
    assert_eq!(printed_lines(&mut interpreter), vec!["true", "true", "false", "true", "true"]);
}

fn program_output(program: &str) -> Vec<String> {
    let statements = parse_stmts(program);
    let mut interpreter = Interpreter::new();
    interpreter.interpret(&statements).unwrap_or_else(|e| panic!("runtime error: {}", e.to_string()));
    interpreter
        .take_output()
        .into_iter()
        .map(|p| match p {
            rust_interpreter::Printed::Text(s) => s,
            rust_interpreter::Printed::Float(bits) => format!("{}", f64::from_bits(bits)),
        })
        .collect()
}

#[test]
fn closure_rebinds_its_captured_variable() {
    let out = program_output(
        "
        fun make() {
            var n = 0;
            fun inc() { n = n + 1; return n; }
            return inc;
        }
        var c = make();
        print c();
        print c();
        var a = 1;
        a = 2;
        print a;
        ",
    );
    assert_eq!(out, vec!["1", "2", "2"]);
}

#[test]
fn callables_print_their_names() {
    let out = program_output(
        "
        fun add(a, b) { return a + b; }
        class Point {}
        print add;
        print clock;
        print Point;
        print Point();
        print add(1, 2);
        ",
    );
    assert_eq!(out, vec!["<fn add>", "<native fn clock>", "<class Point>", "<instance of Point>", "3"]);
}

#[test]
fn large_integer_numerals_are_exact() {
    let expr = parse_expr("9007199254740991");
    let mut interpreter = Interpreter::new();
    match interpreter.visit_expression(&expr) {
        Ok(Value::Integer(i)) => assert_eq!(i, 9007199254740991),
        other => panic!("unexpected result: {:?}", other),
    }
}
