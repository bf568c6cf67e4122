use rust_interpreter::runtime::environment::Environments;
use rust_interpreter::runtime::operations::binary_operation;
use rust_interpreter::runtime::value::{is_equal, is_truthy};
use rust_interpreter::{Token, TokenType, Value};

fn op(ty: TokenType, lexeme: &str) -> Token {
    Token::new(ty, lexeme.to_string(), None, 7)
}

#[test]
fn get_after_define_and_assign() {
    let mut envs = Environments::new();
    let inner = envs.new_scope(0);
    envs.define(0, "x".to_string(), Value::Integer(1));
    envs.define(inner, "y".to_string(), Value::Integer(2));
    assert!(matches!(envs.get(inner, &"x".to_string(), 1), Ok(Value::Integer(1))));
    assert!(matches!(envs.get(inner, &"y".to_string(), 1), Ok(Value::Integer(2))));
    assert!(envs.get(0, &"y".to_string(), 3).is_err());
    envs.assign(inner, &"x".to_string(), Value::Integer(5), 1).unwrap();
    assert!(matches!(envs.get(0, &"x".to_string(), 1), Ok(Value::Integer(5))));
    assert!(matches!(envs.get_at(inner, 1, &"x".to_string(), 1), Ok(Value::Integer(5))));
    envs.assign_at(inner, 0, &"y".to_string(), Value::Bool(true), 1).unwrap();
    assert!(matches!(envs.get_at(inner, 0, &"y".to_string(), 1), Ok(Value::Bool(true))));
    let err = envs.assign(inner, &"z".to_string(), Value::Nil, 9).err().expect("an error");
    assert_eq!(err.line, 9);
    assert_eq!(err.message, "Undefined variable 'z'.");
    assert!(envs.get_at(inner, 2, &"x".to_string(), 1).is_err());
}

#[test]
fn truthiness_and_equality() {
    assert!(!is_truthy(&Value::Nil));
    assert!(!is_truthy(&Value::Bool(false)));
    assert!(is_truthy(&Value::Integer(0)));
    assert!(is_truthy(&Value::Str(String::new())));
    assert!(is_equal(&Value::Integer(3), &Value::Integer(3)));
    assert!(!is_equal(&Value::Integer(3), &Value::Float(3.0f64.to_bits())));
    assert!(is_equal(&Value::Float(0.0f64.to_bits()), &Value::Float((-0.0f64).to_bits())));
    assert!(!is_equal(&Value::Float(f64::NAN.to_bits()), &Value::Float(f64::NAN.to_bits())));
    assert!(is_equal(&Value::Nil, &Value::Nil));
    assert!(!is_equal(&Value::Nil, &Value::Bool(false)));
}

#[test]
fn binary_operations() {
    let plus = op(TokenType::Plus, "+");
    match binary_operation(&plus, Value::Float(0.1f64.to_bits()), Value::Float(0.2f64.to_bits())) {
        Ok(Value::Float(b)) => assert_eq!(f64::from_bits(b), 0.1 + 0.2),
        other => panic!("unexpected: {:?}", other),
    }
    let slash = op(TokenType::Slash, "/");
    match binary_operation(&slash, Value::Integer(1), Value::Integer(0)) {
        Ok(Value::Float(b)) => assert_eq!(f64::from_bits(b), f64::INFINITY),
        other => panic!("unexpected: {:?}", other),
    }
    let less = op(TokenType::Less, "<");
    match binary_operation(&less, Value::Str("a".to_string()), Value::Integer(1)) {
        Err(e) => {
            assert_eq!(e.line, 7);
            assert_eq!(e.message, "Error at '<': Operand must be a number for <");
        },
        other => panic!("unexpected: {:?}", other),
    }
    let star = op(TokenType::Star, "*");
    match binary_operation(&star, Value::Integer(6), Value::Float(0.5f64.to_bits())) {
        Ok(Value::Float(b)) => assert_eq!(f64::from_bits(b), 3.0),
        other => panic!("unexpected: {:?}", other),
    }
    match binary_operation(&plus, Value::Str("a".to_string()), Value::Integer(1)) {
        Err(e) => assert_eq!(e.message, "Error at '+': Operands must be two numbers or two strings for '+'"),
        other => panic!("unexpected: {:?}", other),
    }
}
