//! What the operators of the language compute, and the values literals
//! denote.
use vstd::prelude::*;
use crate::lexer::token::{Literal, LiteralView, Token, TokenType, TokenView, token_type_debug};
use crate::number::{
    float_add, float_compare, float_difference, float_div, float_from_integer, float_mul, float_neg,
    float_negation, float_of_integer, float_order, float_product, float_quotient, float_sub, float_sum,
    float_to_integer, float_truncation, all_digits, digits_value, is_nan, order_key, FloatOrder,
};
use crate::lexer::scanner::exact_integer;
use crate::runtime::value::{is_equal, is_truthy, truthy, values_equal, Value, ValueView};
use crate::runtime::error::{RuntimeError, RuntimeErrorView};
use crate::text::append_str;

verus! {

/// The text of an error at a token: `Error at end: ...` at the end of
/// input, `Error at '<lexeme>': ...` elsewhere.
pub open spec fn error_text(token: TokenView, message: Seq<char>) -> Seq<char> {
    if token.token_type == TokenType::Eof {
        "Error at end: "@ + message
    } else {
        "Error at '"@ + token.lexeme + "': "@ + message
    }
}

/// The error at a token, on the token's line.
pub open spec fn error_at(token: TokenView, message: Seq<char>) -> RuntimeErrorView {
    RuntimeErrorView { line: token.line, message: error_text(token, message) }
}

/// Reports an error at a token.
pub fn error(token: &Token, message: &str) -> (e: RuntimeError)
    ensures
        e@ == error_at(token@, message@),
{
    if token.token_type == TokenType::Eof {
        let mut m = String::from_str("Error at end: ");
        append_str(&mut m, message);
        RuntimeError::new(token.line, m)
    } else {
        let mut m = String::from_str("Error at '");
        append_str(&mut m, token.lexeme.as_str());
        append_str(&mut m, "': ");
        append_str(&mut m, message);
        RuntimeError::new(token.line, m)
    }
}

/// The number a value stands for in arithmetic, as a double: a float
/// itself, an integer converted; nothing for other values.
pub open spec fn number_of(v: ValueView) -> Option<u64> {
    match v {
        ValueView::Float(f) => Some(f),
        ValueView::Integer(i) => Some(float_of_integer(i as i128)),
        _ => None,
    }
}

/// Whether a value is a number (an integer or a float).
pub open spec fn numeric(v: ValueView) -> bool {
    v is Float || v is Integer
}

/// The message of an operand that is not a number.
pub open spec fn operand_message(operator: TokenView) -> Seq<char> {
    "Operand must be a number for "@ + operator.lexeme
}

/// The value of `left + right`, `left - right` or `left * right` on two
/// numbers, of which at least one is a float or both are integers; integer
/// arithmetic that leaves the range of `isize` is an error.
pub open spec fn arithmetic(operator: TokenView, left: ValueView, right: ValueView) -> Result<ValueView, RuntimeErrorView> {
    if left is Float || right is Float {
        let (a, b) = (number_of(left)->Some_0, number_of(right)->Some_0);
        Ok(
            ValueView::Float(
                if operator.token_type == TokenType::Plus {
                    float_sum(a, b)
                } else if operator.token_type == TokenType::Minus {
                    float_difference(a, b)
                } else {
                    float_product(a, b)
                },
            ),
        )
    } else {
        let (a, b) = (left->Integer_0 as int, right->Integer_0 as int);
        let n = if operator.token_type == TokenType::Plus {
            a + b
        } else if operator.token_type == TokenType::Minus {
            a - b
        } else {
            a * b
        };
        if isize::MIN <= n <= isize::MAX {
            Ok(ValueView::Integer(n as isize))
        } else {
            Err(error_at(operator, "Integer overflow."@))
        }
    }
}

/// What a comparison operator gives on how its two doubles compare.
pub open spec fn compared(ty: TokenType, order: FloatOrder) -> bool {
    match ty {
        TokenType::Greater => order == FloatOrder::Greater,
        TokenType::GreaterEqual => order == FloatOrder::Greater || order == FloatOrder::Equal,
        TokenType::Less => order == FloatOrder::Less,
        _ => order == FloatOrder::Less || order == FloatOrder::Equal,
    }
}

/// The value of a binary operator applied to two values, or the error it
/// raises.
pub open spec fn binary_value(operator: TokenView, left: ValueView, right: ValueView) -> Result<ValueView, RuntimeErrorView> {
    let non_numeric = !numeric(left) || !numeric(right);
    match operator.token_type {
        TokenType::Plus => if non_numeric {
            match (left, right) {
                (ValueView::Str(a), ValueView::Str(b)) => Ok(ValueView::Str(a + b)),
                _ => Err(error_at(operator, "Operands must be two numbers or two strings for '+'"@)),
            }
        } else {
            arithmetic(operator, left, right)
        },
        TokenType::Minus => if non_numeric {
            Err(error_at(operator, "Operands must be two numbers for '-'"@))
        } else {
            arithmetic(operator, left, right)
        },
        TokenType::Star => if non_numeric {
            Err(error_at(operator, "Operands must be two numbers for '*'"@))
        } else {
            arithmetic(operator, left, right)
        },
        TokenType::Slash => if non_numeric {
            Err(error_at(operator, "Operands must be two numbers for '/'"@))
        } else {
            Ok(ValueView::Float(float_quotient(number_of(left)->Some_0, number_of(right)->Some_0)))
        },
        TokenType::Greater | TokenType::GreaterEqual | TokenType::Less | TokenType::LessEqual => if !numeric(left)
            || !numeric(right) {
            Err(error_at(operator, operand_message(operator)))
        } else {
            Ok(
                ValueView::Bool(
                    compared(
                        operator.token_type,
                        float_order(number_of(left)->Some_0, number_of(right)->Some_0),
                    ),
                ),
            )
        },
        TokenType::EqualEqual => Ok(ValueView::Bool(values_equal(left, right))),
        TokenType::BangEqual => Ok(ValueView::Bool(!values_equal(left, right))),
        _ => Err(error_at(operator, "Unsupported binary operator: "@ + token_type_debug(operator.token_type))),
    }
}

/// The value of a unary operator applied to a value, or the error it raises.
pub open spec fn unary_value(operator: TokenView, right: ValueView) -> Result<ValueView, RuntimeErrorView> {
    match operator.token_type {
        TokenType::Minus => match right {
            ValueView::Float(f) => Ok(ValueView::Float(float_negation(f))),
            ValueView::Integer(i) => if i == isize::MIN {
                Err(error_at(operator, "Integer overflow."@))
            } else {
                Ok(ValueView::Integer(-i as isize))
            },
            _ => Err(error_at(operator, "Operand must be a number for unary '-'"@)),
        },
        TokenType::Bang => Ok(ValueView::Bool(!truthy(right))),
        _ => Err(error_at(operator, "Unsupported unary operator: "@ + token_type_debug(operator.token_type))),
    }
}

/// A 64-bit integer brought into the range of `isize`, saturating.
pub open spec fn clamp_isize(i: i128) -> isize {
    if i < isize::MIN {
        isize::MIN
    } else if i > isize::MAX {
        isize::MAX
    } else {
        i as isize
    }
}

/// The value a literal token denotes. A number whose lexeme has a `.` is a
/// float; one without is an integer (its double truncated, saturating).
pub open spec fn literal_value(token: TokenView) -> ValueView {
    match token.literal {
        Some(LiteralView::Number(n)) => if token.lexeme.contains('.') {
            ValueView::Float(n)
        } else {
            ValueView::Integer(clamp_isize(float_truncation(n)))
        },
        Some(LiteralView::String(s)) => ValueView::Str(s),
        Some(LiteralView::Boolean(b)) => ValueView::Bool(b),
        _ => ValueView::Nil,
    }
}

/// The double a numeric value stands for, or the error naming the operator.
pub fn as_number(operator: &Token, v: &Value) -> (r: Result<u64, RuntimeError>)
    ensures
        match number_of(v@) {
            Some(n) => r == Ok::<u64, RuntimeError>(n),
            None => r is Err && r->Err_0@ == error_at(operator@, operand_message(operator@)),
        },
        v@ is Integer ==> !is_nan(r->Ok_0),
{
    match v {
        Value::Float(n) => Ok(*n),
        Value::Integer(i) => Ok(float_from_integer(*i as i128)),
        _ => {
            let mut m = String::from_str("Operand must be a number for ");
            append_str(&mut m, operator.lexeme.as_str());
            Err(error(operator, m.as_str()))
        },
    }
}

/// `+`, `-` or `*` on two numbers.
fn arithmetic_on(operator: &Token, left: &Value, right: &Value) -> (r: Result<Value, RuntimeError>)
    requires
        numeric(left@),
        numeric(right@),
        operator.token_type == TokenType::Plus || operator.token_type == TokenType::Minus
            || operator.token_type == TokenType::Star,
    ensures
        match arithmetic(operator@, left@, right@) {
            Ok(v) => r is Ok && r->Ok_0@ == v,
            Err(e) => r is Err && r->Err_0@ == e,
        },
{
    match (left, right) {
        (Value::Integer(a), Value::Integer(b)) => {
            let n = if operator.token_type == TokenType::Plus {
                a.checked_add(*b)
            } else if operator.token_type == TokenType::Minus {
                a.checked_sub(*b)
            } else {
                a.checked_mul(*b)
            };
            match n {
                Some(n) => Ok(Value::Integer(n)),
                None => Err(error(operator, "Integer overflow.")),
            }
        },
        _ => {
            let a = match as_number(operator, left) {
                Ok(a) => a,
                Err(e) => {
                    return Err(e);
                },
            };
            let b = match as_number(operator, right) {
                Ok(b) => b,
                Err(e) => {
                    return Err(e);
                },
            };
            if operator.token_type == TokenType::Plus {
                Ok(Value::Float(float_add(a, b)))
            } else if operator.token_type == TokenType::Minus {
                Ok(Value::Float(float_sub(a, b)))
            } else {
                Ok(Value::Float(float_mul(a, b)))
            }
        },
    }
}

/// Whether a value is a number.
fn is_number(v: &Value) -> (r: bool)
    ensures
        r == numeric(v@),
{
    match v {
        Value::Float(_) | Value::Integer(_) => true,
        _ => false,
    }
}

/// A binary operator applied to two values.
pub fn binary_operation(operator: &Token, left: Value, right: Value) -> (r: Result<Value, RuntimeError>)
    ensures
        match binary_value(operator@, left@, right@) {
            Ok(v) => r is Ok && r->Ok_0@ == v,
            Err(e) => r is Err && r->Err_0@ == e,
        },
        left@ is Integer && left@ == right@ && (operator.token_type == TokenType::LessEqual
            || operator.token_type == TokenType::GreaterEqual) ==> r matches Ok(Value::Bool(true)),
        left@ is Integer && left@ == right@ && (operator.token_type == TokenType::Less || operator.token_type
            == TokenType::Greater) ==> r matches Ok(Value::Bool(false)),
{
    let non_numeric = !is_number(&left) || !is_number(&right);
    match operator.token_type {
        TokenType::Plus => {
            if non_numeric {
                match (left, right) {
                    (Value::Str(a), Value::Str(b)) => {
                        let mut s = a;
                        append_str(&mut s, b.as_str());
                        Ok(Value::Str(s))
                    },
                    _ => Err(error(operator, "Operands must be two numbers or two strings for '+'")),
                }
            } else {
                arithmetic_on(operator, &left, &right)
            }
        },
        TokenType::Minus => {
            if non_numeric {
                Err(error(operator, "Operands must be two numbers for '-'"))
            } else {
                arithmetic_on(operator, &left, &right)
            }
        },
        TokenType::Star => {
            if non_numeric {
                Err(error(operator, "Operands must be two numbers for '*'"))
            } else {
                arithmetic_on(operator, &left, &right)
            }
        },
        TokenType::Slash => {
            if non_numeric {
                return Err(error(operator, "Operands must be two numbers for '/'"));
            }
            let a = match as_number(operator, &left) {
                Ok(a) => a,
                Err(e) => {
                    return Err(e);
                },
            };
            let b = match as_number(operator, &right) {
                Ok(b) => b,
                Err(e) => {
                    return Err(e);
                },
            };
            Ok(Value::Float(float_div(a, b)))
        },
        TokenType::Greater | TokenType::GreaterEqual | TokenType::Less | TokenType::LessEqual => {
            let a = match as_number(operator, &left) {
                Ok(a) => a,
                Err(e) => {
                    return Err(e);
                },
            };
            let b = match as_number(operator, &right) {
                Ok(b) => b,
                Err(e) => {
                    return Err(e);
                },
            };
            let order = float_compare(a, b);
            let result = match operator.token_type {
                TokenType::Greater => order == FloatOrder::Greater,
                TokenType::GreaterEqual => order == FloatOrder::Greater || order == FloatOrder::Equal,
                TokenType::Less => order == FloatOrder::Less,
                _ => order == FloatOrder::Less || order == FloatOrder::Equal,
            };
            Ok(Value::Bool(result))
        },
        TokenType::EqualEqual => Ok(Value::Bool(is_equal(&left, &right))),
        TokenType::BangEqual => Ok(Value::Bool(!is_equal(&left, &right))),
        _ => {
            let mut m = String::from_str("Unsupported binary operator: ");
            append_str(&mut m, operator.token_type.debug_text().as_str());
            Err(error(operator, m.as_str()))
        },
    }
}

/// A unary operator applied to a value.
pub fn unary_operation(operator: &Token, right: Value) -> (r: Result<Value, RuntimeError>)
    ensures
        match unary_value(operator@, right@) {
            Ok(v) => r is Ok && r->Ok_0@ == v,
            Err(e) => r is Err && r->Err_0@ == e,
        },
{
    match operator.token_type {
        TokenType::Minus => {
            match right {
                Value::Float(n) => Ok(Value::Float(float_neg(n))),
                Value::Integer(n) => {
                    if n == isize::MIN {
                        Err(error(operator, "Integer overflow."))
                    } else {
                        Ok(Value::Integer(-n))
                    }
                },
                _ => Err(error(operator, "Operand must be a number for unary '-'")),
            }
        },
        TokenType::Bang => Ok(Value::Bool(!is_truthy(&right))),
        _ => {
            let mut m = String::from_str("Unsupported unary operator: ");
            append_str(&mut m, operator.token_type.debug_text().as_str());
            Err(error(operator, m.as_str()))
        },
    }
}

/// Whether a string has the character `c`.
fn has_char(s: &String, c: char) -> (r: bool)
    ensures
        r == s@.contains(c),
{
    let chars = crate::text::str_to_chars(s.as_str());
    let mut i: usize = 0;
    while i < chars.len()
        invariant
            chars@ == s@,
            i <= chars@.len(),
            forall|j: int| 0 <= j < i ==> chars@[j] != c,
        decreases chars@.len() - i,
    {
        if chars[i] == c {
            return true;
        }
        i = i + 1;
    }
    false
}

/// The value a literal token denotes.
pub fn literal(token: &Token) -> (r: Value)
    ensures
        r@ == literal_value(token@),
{
    match &token.literal {
        Some(Literal::Number(n)) => {
            if has_char(&token.lexeme, '.') {
                Value::Float(*n)
            } else {
                let i = float_to_integer(*n);
                if i < isize::MIN as i128 {
                    Value::Integer(isize::MIN)
                } else if i > isize::MAX as i128 {
                    Value::Integer(isize::MAX)
                } else {
                    Value::Integer(i as isize)
                }
            }
        },
        Some(Literal::String(s)) => Value::Str(s.clone()),
        Some(Literal::Boolean(b)) => Value::Bool(*b),
        _ => Value::Nil,
    }
}

/// A text of digits has a value of at least zero.
proof fn lemma_digits_nonnegative(t: Seq<char>)
    requires
        forall|i: int| 0 <= i < t.len() ==> '0' <= #[trigger] t[i] <= '9',
    ensures
        digits_value(t) >= 0,
    decreases t.len(),
{
    if t.len() > 0 {
        assert forall|i: int| 0 <= i < t.drop_last().len() implies '0' <= #[trigger] t.drop_last()[i] <= '9' by {
            assert(t.drop_last()[i] == t[i]);
        }
        lemma_digits_nonnegative(t.drop_last());
        assert('0' <= t[t.len() - 1] <= '9');
    }
}

/// An integer numeral that a scan read exactly is, as a literal, the
/// integer its digits spell, when that fits in an `isize`.
pub proof fn lemma_integer_literal(t: TokenView)
    requires
        exact_integer(t),
        t.literal matches Some(LiteralView::Number(_)),
        all_digits(t.lexeme),
        digits_value(t.lexeme) < 0x20_0000_0000_0000,
        digits_value(t.lexeme) <= isize::MAX,
    ensures
        literal_value(t) == ValueView::Integer(digits_value(t.lexeme) as isize),
{
    lemma_digits_nonnegative(t.lexeme);
    if t.lexeme.contains('.') {
        let i = choose|i: int| 0 <= i < t.lexeme.len() && t.lexeme[i] == '.';
        assert('0' <= t.lexeme[i] <= '9');
    }
}

/// The comparison operators order two numbers as they lie on the number
/// line, once both are doubles: `<` holds when the left one lies strictly
/// below, `<=` when it lies below or at the same place (so `3 <= 3` and
/// `0.5 <= 0.5` hold), `>` strictly above, `>=` above or at the same place.
/// When either double is NaN, every comparison is false.
pub proof fn lemma_comparisons_order_numbers(op: TokenView, a: ValueView, b: ValueView)
    requires
        numeric(a),
        numeric(b),
    ensures
        ({
            let (x, y) = (number_of(a)->Some_0, number_of(b)->Some_0);
            let holds = if is_nan(x) || is_nan(y) {
                false
            } else if op.token_type == TokenType::Less {
                order_key(x) < order_key(y)
            } else if op.token_type == TokenType::LessEqual {
                order_key(x) <= order_key(y)
            } else if op.token_type == TokenType::Greater {
                order_key(x) > order_key(y)
            } else {
                order_key(x) >= order_key(y)
            };
            (op.token_type == TokenType::Less || op.token_type == TokenType::LessEqual || op.token_type
                == TokenType::Greater || op.token_type == TokenType::GreaterEqual) ==> binary_value(op, a, b)
                == Ok::<ValueView, RuntimeErrorView>(ValueView::Bool(holds))
        }),
{
}

/// How the comparisons relate, on two numbers whose doubles are not NaN:
/// `a <= b` is `a < b` or `a` and `b` at the same place, `a <= b` is the
/// negation of `a > b`, `a < b` the negation of `a >= b`, and swapping the
/// operands swaps `<` with `>` and `<=` with `>=`. A number is `<=` and `>=`
/// itself, and neither `<` nor `>` itself.
pub proof fn lemma_comparisons_relate(lt: TokenView, le: TokenView, gt: TokenView, ge: TokenView, a: ValueView, b: ValueView)
    requires
        lt.token_type == TokenType::Less,
        le.token_type == TokenType::LessEqual,
        gt.token_type == TokenType::Greater,
        ge.token_type == TokenType::GreaterEqual,
        numeric(a),
        numeric(b),
        !is_nan(number_of(a)->Some_0),
        !is_nan(number_of(b)->Some_0),
    ensures
        binary_value(le, a, b) == Ok::<ValueView, RuntimeErrorView>(ValueView::Bool(
            binary_value(lt, a, b)->Ok_0->Bool_0 || float_order(number_of(a)->Some_0, number_of(b)->Some_0)
                == FloatOrder::Equal,
        )),
        binary_value(le, a, b) == Ok::<ValueView, RuntimeErrorView>(ValueView::Bool(!binary_value(gt, a, b)->Ok_0->Bool_0)),
        binary_value(lt, a, b) == Ok::<ValueView, RuntimeErrorView>(ValueView::Bool(!binary_value(ge, a, b)->Ok_0->Bool_0)),
        binary_value(lt, a, b) == binary_value(gt, b, a),
        binary_value(le, a, b) == binary_value(ge, b, a),
        binary_value(le, a, a) == Ok::<ValueView, RuntimeErrorView>(ValueView::Bool(true)),
        binary_value(ge, a, a) == Ok::<ValueView, RuntimeErrorView>(ValueView::Bool(true)),
        binary_value(lt, a, a) == Ok::<ValueView, RuntimeErrorView>(ValueView::Bool(false)),
        binary_value(gt, a, a) == Ok::<ValueView, RuntimeErrorView>(ValueView::Bool(false)),
{
    lemma_comparisons_order_numbers(lt, a, b);
    lemma_comparisons_order_numbers(le, a, b);
    lemma_comparisons_order_numbers(gt, a, b);
    lemma_comparisons_order_numbers(ge, a, b);
    lemma_comparisons_order_numbers(lt, b, a);
    lemma_comparisons_order_numbers(ge, b, a);
    lemma_comparisons_order_numbers(gt, b, a);
    lemma_comparisons_order_numbers(le, b, a);
    lemma_comparisons_order_numbers(le, a, a);
    lemma_comparisons_order_numbers(ge, a, a);
    lemma_comparisons_order_numbers(lt, a, a);
    lemma_comparisons_order_numbers(gt, a, a);
}

/// `!` gives true exactly on nil and on false, and false on every other
/// value; so `!false` and `!nil` are true, and `!0` and `!""` are false.
pub proof fn lemma_not_marks_falsy_values(bang: TokenView, v: ValueView)
    requires
        bang.token_type == TokenType::Bang,
    ensures
        unary_value(bang, v) == Ok::<ValueView, RuntimeErrorView>(ValueView::Bool(v is Nil || v == ValueView::Bool(false))),
        unary_value(bang, ValueView::Bool(false)) == Ok::<ValueView, RuntimeErrorView>(ValueView::Bool(true)),
        unary_value(bang, ValueView::Bool(true)) == Ok::<ValueView, RuntimeErrorView>(ValueView::Bool(false)),
{
}

/// `!=` is the negation of `==`, on any two values.
pub proof fn lemma_not_equal_negates_equal(eq: TokenView, ne: TokenView, left: ValueView, right: ValueView)
    requires
        eq.token_type == TokenType::EqualEqual,
        ne.token_type == TokenType::BangEqual,
    ensures
        binary_value(eq, left, right) matches Ok(ValueView::Bool(a)) && binary_value(ne, left, right) matches Ok(
            ValueView::Bool(b),
        ) && a == !b,
{
}

/// Two strings added are their concatenation.
pub proof fn lemma_plus_concatenates(plus: TokenView, a: Seq<char>, b: Seq<char>)
    requires
        plus.token_type == TokenType::Plus,
    ensures
        binary_value(plus, ValueView::Str(a), ValueView::Str(b)) == Ok::<ValueView, RuntimeErrorView>(ValueView::Str(a + b)),
{
}

/// On two integers, `+`, `-` and `*` are integer arithmetic, an error
/// exactly when the result leaves the range of `isize`.
pub proof fn lemma_integer_arithmetic(operator: TokenView, a: isize, b: isize)
    requires
        operator.token_type == TokenType::Plus || operator.token_type == TokenType::Minus || operator.token_type
            == TokenType::Star,
    ensures
        ({
            let n = if operator.token_type == TokenType::Plus {
                a + b
            } else if operator.token_type == TokenType::Minus {
                a - b
            } else {
                a * b
            };
            match binary_value(operator, ValueView::Integer(a), ValueView::Integer(b)) {
                Ok(v) => isize::MIN <= n <= isize::MAX && v == ValueView::Integer(n as isize),
                Err(_) => !(isize::MIN <= n <= isize::MAX),
            }
        }),
{
}

} // verus!
