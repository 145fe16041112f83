use vstd::prelude::*;
use crate::builtins::exceptions::RuntimeError;
use crate::builtins::float::{FloatRequest, FloatRequestView, Number, SoxFloat};
use crate::builtins::function::SoxFunction;
use crate::builtins::integer::SoxInt;
use crate::environment::same_key;
use crate::stmt::Stmt;
use crate::object::{Outcome, SoxObject, Value, OutcomeView};
use crate::token_type::TokenType;

verus! {

/// The number that a value is, if it is one.
pub open spec fn number_of(v: Value<'_>) -> Option<Number> {
    match v {
        Value::Int(i) => Some(Number::Int(SoxInt { value: i })),
        Value::Float(x) => Some(Number::Float(SoxFloat { value: x })),
        _ => None,
    }
}

/// Truthiness: `None` and `false` are false, every other value is true.
pub open spec fn truthy(v: Value<'_>) -> bool {
    match v {
        Value::Nil => false,
        Value::Boolean(b) => b,
        _ => true,
    }
}

/// The message of an operator whose operands are not of a kind it takes.
pub open spec fn operand_error(operator: TokenType) -> Seq<char> {
    match operator {
        TokenType::Minus => "Operands must be two numbers or two strings"@,
        TokenType::Plus => "Operands must be two numbers or two strings."@,
        TokenType::Rem => "Arguments to the remainder operator must both be numbers"@,
        TokenType::Star => "Arguments to the multiplication operator must both be numbers"@,
        TokenType::Slash => "Arguments to the division operator must both be numbers"@,
        TokenType::Less => "Arguments to the less than operator must both be numbers"@,
        TokenType::Greater => "Arguments to the greater than operator must both be numbers"@,
        TokenType::LessEqual =>
            "Arguments to the less than or equals operator must both be numbers"@,
        TokenType::GreaterEqual =>
            "Arguments to the greater than or equals operator must both be numbers"@,
        _ => "Unsupported token type"@,
    }
}

/// The message for an integer result that does not fit in 64 bits, and for a
/// remainder by zero.
pub open spec fn range_error() -> Seq<char> {
    "Integer result out of range"@
}

/// `a operator b` on integers, for `+ - * %`: the exact result, where it is
/// defined and fits in 64 bits. `%` has the sign of `a`.
pub open spec fn int_result(operator: TokenType, a: i64, b: i64) -> Option<i64> {
    match operator {
        TokenType::Plus => a.checked_add(b),
        TokenType::Minus => a.checked_sub(b),
        TokenType::Star => a.checked_mul(b),
        _ => a.checked_rem(b),
    }
}

/// `a operator b` on integers, for `< > <= >=`.
pub open spec fn int_order(operator: TokenType, a: i64, b: i64) -> bool {
    match operator {
        TokenType::Less => a < b,
        TokenType::Greater => a > b,
        TokenType::LessEqual => a <= b,
        _ => a >= b,
    }
}

/// The operator is one of `+ - * %`.
pub open spec fn is_arithmetic(operator: TokenType) -> bool {
    operator == TokenType::Plus || operator == TokenType::Minus || operator == TokenType::Star
        || operator == TokenType::Rem
}

/// The operator is one of `< > <= >=`.
pub open spec fn is_order(operator: TokenType) -> bool {
    operator == TokenType::Less || operator == TokenType::Greater || operator
        == TokenType::LessEqual || operator == TokenType::GreaterEqual
}

/// What `left operator right` gives, for the arithmetic and ordering
/// operators.
///
/// Two integers stay integers under `+ - * %` and are compared exactly; `/`
/// always gives a fractional number. Where one operand is a fractional number
/// and the other a number, the host computes. `+` joins two strings. Every
/// other pair of operands is an error, and so is every other operator.
pub open spec fn binary_result<'a>(operator: TokenType, left: Value<'a>, right: Value<'a>) -> OutcomeView<
    'a,
> {
    if !(is_arithmetic(operator) || is_order(operator) || operator == TokenType::Slash) {
        OutcomeView::Failure(operand_error(operator))
    } else {
        match (left, right) {
            (Value::Int(a), Value::Int(b)) => {
                if is_arithmetic(operator) {
                    match int_result(operator, a, b) {
                        Some(c) => OutcomeView::Value(Value::Int(c)),
                        None => OutcomeView::Failure(range_error()),
                    }
                } else if is_order(operator) {
                    OutcomeView::Value(Value::Boolean(int_order(operator, a, b)))
                } else {
                    OutcomeView::Float(
                        FloatRequestView::Arithmetic {
                            operator,
                            left: Number::Int(SoxInt { value: a }),
                            right: Number::Int(SoxInt { value: b }),
                        },
                    )
                }
            },
            (Value::Str(a), Value::Str(b)) => {
                if operator == TokenType::Plus {
                    OutcomeView::Value(Value::Str(a + b))
                } else {
                    OutcomeView::Failure(operand_error(operator))
                }
            },
            _ => {
                match (number_of(left), number_of(right)) {
                    (Some(x), Some(y)) => {
                        if is_order(operator) {
                            OutcomeView::Float(FloatRequestView::Compare { operator, left: x, right: y })
                        } else {
                            OutcomeView::Float(
                                FloatRequestView::Arithmetic { operator, left: x, right: y },
                            )
                        }
                    },
                    _ => OutcomeView::Failure(operand_error(operator)),
                }
            },
        }
    }
}

/// What `operator right` gives: `-` negates a number, `!` negates the
/// truthiness of any value.
pub open spec fn unary_result<'a>(operator: TokenType, right: Value<'a>) -> OutcomeView<'a> {
    match operator {
        TokenType::Minus => match right {
            Value::Float(x) => OutcomeView::Value(Value::Float(x ^ 0x8000_0000_0000_0000u64)),
            Value::Int(i) => {
                if i == i64::MIN {
                    OutcomeView::Failure(range_error())
                } else {
                    OutcomeView::Value(Value::Int((-i) as i64))
                }
            },
            _ => OutcomeView::Failure(
                "The unary operator (-) can only be applied to a numeric value."@,
            ),
        },
        TokenType::Bang => OutcomeView::Value(Value::Boolean(!truthy(right))),
        _ => OutcomeView::Failure("Unknown unary operator."@),
    }
}

/// The number of the token that names a function declaration.
pub open spec fn declaration_id(declaration: Stmt) -> Option<u32> {
    match declaration {
        Stmt::Function { name, .. } => Some(name.id),
        _ => None,
    }
}

/// Two function values are the same function: the same declaration, captured
/// in the same frame.
pub open spec fn same_function(f: SoxFunction<'_>, g: SoxFunction<'_>) -> bool {
    &&& f.name@ == g.name@
    &&& declaration_id(*f.declaration) == declaration_id(*g.declaration)
    &&& f.environment_ref == g.environment_ref
    &&& f.is_initializer == g.is_initializer
    &&& f.arity == g.arity
}

/// What `left == right` gives. The left operand decides: an integer, a
/// string, a boolean, `None` and a function equal a value of the same kind
/// with the same contents; an integer against a fractional number, and a
/// fractional number against a number, are compared by the host; classes,
/// instances and all other pairs are unequal.
pub open spec fn equal_result<'a>(left: Value<'a>, right: Value<'a>) -> OutcomeView<'a> {
    match left {
        Value::Int(a) => match right {
            Value::Int(b) => OutcomeView::Value(Value::Boolean(a == b)),
            Value::Float(y) => OutcomeView::Float(
                FloatRequestView::Compare {
                    operator: TokenType::EqualEqual,
                    left: Number::Int(SoxInt { value: a }),
                    right: Number::Float(SoxFloat { value: y }),
                },
            ),
            _ => OutcomeView::Value(Value::Boolean(false)),
        },
        Value::Float(x) => match number_of(right) {
            Some(y) => OutcomeView::Float(
                FloatRequestView::Compare {
                    operator: TokenType::EqualEqual,
                    left: Number::Float(SoxFloat { value: x }),
                    right: y,
                },
            ),
            None => OutcomeView::Value(Value::Boolean(false)),
        },
        Value::Str(a) => OutcomeView::Value(Value::Boolean(right matches Value::Str(b) && a == b)),
        Value::Boolean(a) => OutcomeView::Value(
            Value::Boolean(right matches Value::Boolean(b) && a == b),
        ),
        Value::Nil => OutcomeView::Value(Value::Boolean(right is Nil)),
        Value::Function(f) => OutcomeView::Value(
            Value::Boolean(right matches Value::Function(g) && same_function(f, g)),
        ),
        _ => OutcomeView::Value(Value::Boolean(false)),
    }
}

/// The number of the token that names a function declaration.
pub fn declaration_number(declaration: &Stmt) -> (r: Option<u32>)
    ensures
        r == declaration_id(*declaration),
{
    match declaration {
        Stmt::Function { name, .. } => Some(name.id),
        _ => None,
    }
}

/// Whether two function values are the same function.
pub fn functions_equal(f: &SoxFunction, g: &SoxFunction) -> (r: bool)
    ensures
        r == same_function(*f, *g),
{
    f.name == g.name && declaration_number(f.declaration) == declaration_number(g.declaration)
        && same_key(f.environment_ref, g.environment_ref) && f.is_initializer == g.is_initializer
        && f.arity == g.arity
}

/// Compares two values for `==`.
pub fn equal<'a>(left: &SoxObject<'a>, right: &SoxObject<'a>) -> (r: Outcome<'a>)
    ensures
        r@ == equal_result(left@, right@),
{
    match left {
        SoxObject::Int(a) => match right {
            SoxObject::Float(y) => Outcome::Float(
                FloatRequest::Compare {
                    operator: TokenType::EqualEqual,
                    left: Number::Int(*a),
                    right: Number::Float(*y),
                },
            ),
            _ => Outcome::Value(SoxObject::Boolean(a.equals(right))),
        },
        SoxObject::Float(x) => match as_number(right) {
            Some(y) => Outcome::Float(
                FloatRequest::Compare {
                    operator: TokenType::EqualEqual,
                    left: Number::Float(*x),
                    right: y,
                },
            ),
            None => Outcome::Value(SoxObject::from_bool(false)),
        },
        SoxObject::String(a) => Outcome::Value(SoxObject::Boolean(a.val.equals(right))),
        SoxObject::Boolean(a) => Outcome::Value(SoxObject::Boolean(a.equals(right))),
        SoxObject::Nil(a) => Outcome::Value(SoxObject::Boolean(a.equals(right))),
        SoxObject::Function(f) => match right {
            SoxObject::Function(g) => Outcome::Value(
                SoxObject::from_bool(functions_equal(&f.val, &g.val)),
            ),
            _ => Outcome::Value(SoxObject::from_bool(false)),
        },
        _ => Outcome::Value(SoxObject::from_bool(false)),
    }
}

/// The error of an operator for operands that it does not take.
pub fn operand_failure<'a>(operator: TokenType) -> (r: Outcome<'a>)
    ensures
        r@ == OutcomeView::<'a>::Failure(operand_error(operator)),
{
    let msg = match operator {
        TokenType::Minus => "Operands must be two numbers or two strings",
        TokenType::Plus => "Operands must be two numbers or two strings.",
        TokenType::Rem => "Arguments to the remainder operator must both be numbers",
        TokenType::Star => "Arguments to the multiplication operator must both be numbers",
        TokenType::Slash => "Arguments to the division operator must both be numbers",
        TokenType::Less => "Arguments to the less than operator must both be numbers",
        TokenType::Greater => "Arguments to the greater than operator must both be numbers",
        TokenType::LessEqual =>
            "Arguments to the less than or equals operator must both be numbers",
        TokenType::GreaterEqual =>
            "Arguments to the greater than or equals operator must both be numbers",
        _ => "Unsupported token type",
    };
    Outcome::Failure(RuntimeError::new(msg))
}

/// The number that a value is, if it is one.
pub fn as_number(v: &SoxObject) -> (r: Option<Number>)
    ensures
        r == number_of(v@),
{
    match v {
        SoxObject::Int(i) => Some(Number::Int(*i)),
        SoxObject::Float(x) => Some(Number::Float(*x)),
        _ => None,
    }
}

/// Whether a value counts as true.
pub fn is_truthy(v: &SoxObject) -> (r: bool)
    ensures
        r == truthy(v@),
{
    match v {
        SoxObject::Nil(_) => false,
        SoxObject::Boolean(b) => b.value,
        _ => true,
    }
}

/// Applies an arithmetic or ordering operator to two values.
pub fn binary<'a>(operator: TokenType, left: &SoxObject<'a>, right: &SoxObject<'a>) -> (r: Outcome<
    'a,
>)
    ensures
        r@ == binary_result(operator, left@, right@),
{
    let arithmetic = operator == TokenType::Plus || operator == TokenType::Minus || operator
        == TokenType::Star || operator == TokenType::Rem;
    let order = operator == TokenType::Less || operator == TokenType::Greater || operator
        == TokenType::LessEqual || operator == TokenType::GreaterEqual;
    if !(arithmetic || order || operator == TokenType::Slash) {
        return operand_failure(operator);
    }
    match left {
        SoxObject::Int(a) => match right {
            SoxObject::Int(b) => {
                return int_binary(operator, a.value, b.value);
            },
            _ => {},
        },
        SoxObject::String(a) => match right {
            SoxObject::String(b) => {
                if operator == TokenType::Plus {
                    let mut s = a.val.value.clone();
                    s.append(b.val.value.as_str());
                    return Outcome::Value(SoxObject::from_string(s));
                } else {
                    return operand_failure(operator);
                }
            },
            _ => {},
        },
        _ => {},
    }
    match as_number(left) {
        Some(x) => match as_number(right) {
            Some(y) => {
                if order {
                    Outcome::Float(FloatRequest::Compare { operator, left: x, right: y })
                } else {
                    Outcome::Float(FloatRequest::Arithmetic { operator, left: x, right: y })
                }
            },
            None => operand_failure(operator),
        },
        None => operand_failure(operator),
    }
}

/// Applies an arithmetic or ordering operator, or `/`, to two integers.
fn int_binary<'a>(operator: TokenType, a: i64, b: i64) -> (r: Outcome<'a>)
    requires
        is_arithmetic(operator) || is_order(operator) || operator == TokenType::Slash,
    ensures
        r@ == binary_result(operator, Value::<'a>::Int(a), Value::<'a>::Int(b)),
{
    let exact = match operator {
        TokenType::Plus => a.checked_add(b),
        TokenType::Minus => a.checked_sub(b),
        TokenType::Star => a.checked_mul(b),
        TokenType::Rem => a.checked_rem(b),
        TokenType::Less => {
            return Outcome::Value(SoxObject::from_bool(a < b));
        },
        TokenType::Greater => {
            return Outcome::Value(SoxObject::from_bool(a > b));
        },
        TokenType::LessEqual => {
            return Outcome::Value(SoxObject::from_bool(a <= b));
        },
        TokenType::GreaterEqual => {
            return Outcome::Value(SoxObject::from_bool(a >= b));
        },
        _ => {
            return Outcome::Float(
                FloatRequest::Arithmetic {
                    operator,
                    left: Number::Int(SoxInt { value: a }),
                    right: Number::Int(SoxInt { value: b }),
                },
            );
        },
    };
    match exact {
        Some(c) => Outcome::Value(SoxObject::from_int(c)),
        None => Outcome::Failure(RuntimeError::new("Integer result out of range")),
    }
}

/// Applies a unary operator to a value.
pub fn unary<'a>(operator: TokenType, right: &SoxObject<'a>) -> (r: Outcome<'a>)
    ensures
        r@ == unary_result(operator, right@),
{
    match operator {
        TokenType::Minus => match right {
            SoxObject::Float(x) => Outcome::Value(SoxObject::Float(x.negated())),
            SoxObject::Int(i) => {
                if i.value == i64::MIN {
                    Outcome::Failure(RuntimeError::new("Integer result out of range"))
                } else {
                    Outcome::Value(SoxObject::from_int(-i.value))
                }
            },
            _ => Outcome::Failure(
                RuntimeError::new("The unary operator (-) can only be applied to a numeric value."),
            ),
        },
        TokenType::Bang => Outcome::Value(SoxObject::from_bool(!is_truthy(right))),
        _ => Outcome::Failure(RuntimeError::new("Unknown unary operator.")),
    }
}

} // verus!
