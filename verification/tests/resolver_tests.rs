use rust_interpreter::{scan, Depth, Expr, Parser, Resolver, Statement};

fn parse(input: &str) -> Vec<Statement> {
    let tokens = scan(input);
    let mut parser = Parser::new(tokens.tokens);
    let statements = parser.parse();
    assert!(parser.errors.is_empty());
    statements
}

#[test]
fn locals_get_their_distance_and_globals_stay_unresolved() {
    let mut statements = parse("var g = 1; { var a = 2; { print a; print g; } }");
    let mut resolver = Resolver::new();
    resolver.resolve_statements(&mut statements).unwrap_or_else(|e| panic!("{}", e.to_string()));
    let outer = match &statements[1] {
        Statement::Block { statements } => statements,
        _ => panic!("expected a block"),
    };
    let inner = match &outer[1] {
        Statement::Block { statements } => statements,
        _ => panic!("expected a block"),
    };
    match &inner[0] {
        Statement::Print { expression: Expr::Variable { depth, .. } } => assert_eq!(*depth, Depth::Resolved(1)),
        _ => panic!("expected a print of a variable"),
    }
    match &inner[1] {
        Statement::Print { expression: Expr::Variable { depth, .. } } => assert_eq!(*depth, Depth::Unresolved),
        _ => panic!("expected a print of a variable"),
    }
}

#[test]
fn misuses_are_reported() {
    let cases = [
        ("return 1;", "[line 1] At 'return': Can't return from top-level code"),
        ("{ var a = a; }", "[line 1] At 'a': Can't read local variable in its own initializer"),
        ("{ var a = 1; var a = 2; }", "[line 1] At 'a': Variable with this name already declared in this scope"),
        ("print this;", "[line 1] At 'this': Can't use 'this' outside of a class."),
    ];
    for (source, expected) in cases {
        let mut statements = parse(source);
        let mut resolver = Resolver::new();
        let err = resolver.resolve_statements(&mut statements).err().expect("an error");
        assert_eq!(err.to_string(), expected);
    }
}

#[test]
fn scopes_open_and_close() {
    let mut resolver = Resolver::new();
    assert!(resolver.get_top().is_err());
    resolver.begin_scope().unwrap();
    let top = resolver.get_top().unwrap_or_else(|_| panic!("a scope"));
    assert_eq!(resolver.is_declared(&"x".to_string(), top).unwrap(), false);
    resolver.end_scope().unwrap();
    assert!(resolver.get_top().is_err());
}
