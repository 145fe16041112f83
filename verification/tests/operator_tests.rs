use sox::builtins::bool_::SoxBool;
use sox::builtins::exceptions::{Exception, RuntimeError};
use sox::builtins::float::{FloatRequest, Number};
use sox::builtins::integer::SoxInt;
use sox::builtins::method::{FuncArgs, NativeFunction, SoxMethod};
use sox::builtins::none::SoxNone;
use sox::builtins::string::SoxString;
use sox::catalog::TypeLibrary;
use sox::interpreter::Interpreter;
use sox::object::{Outcome, SoxObject, SoxRef};
use sox::operators::{binary, equal, is_truthy, unary};
use sox::token_type::TokenType;

fn whole(outcome: Outcome) -> i64 {
    match outcome {
        Outcome::Value(SoxObject::Int(i)) => i.value,
        other => panic!("no integer: {:?}", other),
    }
}

fn truth(outcome: Outcome) -> bool {
    match outcome {
        Outcome::Value(SoxObject::Boolean(b)) => b.value,
        other => panic!("no boolean: {:?}", other),
    }
}

fn message(outcome: Outcome) -> String {
    match outcome {
        Outcome::Failure(e) => e.msg,
        other => panic!("no error: {:?}", other),
    }
}

fn i(v: i64) -> SoxObject<'static> {
    SoxObject::from_int(v)
}

#[test]
fn test_integer_operators() {
    assert_eq!(whole(binary(TokenType::Plus, &i(2), &i(3))), 5);
    assert_eq!(whole(binary(TokenType::Minus, &i(2), &i(3))), -1);
    assert_eq!(whole(binary(TokenType::Star, &i(-4), &i(3))), -12);
    assert_eq!(whole(binary(TokenType::Rem, &i(7), &i(-3))), 1);
    assert_eq!(whole(binary(TokenType::Rem, &i(-7), &i(3))), -1);
    assert_eq!(
        whole(binary(TokenType::Plus, &i(i64::MAX - 1), &i(1))),
        i64::MAX
    );
    assert_eq!(
        message(binary(TokenType::Minus, &i(i64::MIN), &i(1))),
        "Integer result out of range"
    );
    assert_eq!(
        message(binary(TokenType::Rem, &i(i64::MIN), &i(-1))),
        "Integer result out of range"
    );
    assert!(truth(binary(TokenType::Less, &i(1), &i(2))));
    assert!(!truth(binary(TokenType::Greater, &i(1), &i(2))));
    assert!(truth(binary(TokenType::LessEqual, &i(2), &i(2))));
    assert!(truth(binary(TokenType::GreaterEqual, &i(2), &i(2))));
}

#[test]
fn test_division_of_integers_is_left_to_the_host() {
    match binary(TokenType::Slash, &i(7), &i(2)) {
        Outcome::Float(FloatRequest::Arithmetic {
            operator,
            left,
            right,
        }) => {
            assert_eq!(operator, TokenType::Slash);
            assert_eq!(left, Number::Int(SoxInt::new(7)));
            assert_eq!(right, Number::Int(SoxInt::new(2)));
        }
        other => panic!("{:?}", other),
    }
}

#[test]
fn test_fractional_operands_are_left_to_the_host() {
    let half = SoxObject::from_bits(0x3fe0_0000_0000_0000);
    assert!(matches!(
        binary(TokenType::Plus, &half, &i(1)),
        Outcome::Float(FloatRequest::Arithmetic { .. })
    ));
    assert!(matches!(
        binary(TokenType::Less, &i(1), &half),
        Outcome::Float(FloatRequest::Compare { .. })
    ));
    assert!(matches!(
        equal(&i(1), &half),
        Outcome::Float(FloatRequest::Compare {
            operator: TokenType::EqualEqual,
            ..
        })
    ));
    assert_eq!(
        message(binary(
            TokenType::Plus,
            &half,
            &SoxObject::from_string("a".to_string())
        )),
        "Operands must be two numbers or two strings."
    );
}

#[test]
fn test_operators_that_are_none() {
    assert_eq!(
        message(binary(TokenType::Bang, &i(1), &i(2))),
        "Unsupported token type"
    );
    assert_eq!(
        message(binary(TokenType::EqualEqual, &i(1), &i(2))),
        "Unsupported token type"
    );
    assert_eq!(
        message(unary(TokenType::Plus, &i(1))),
        "Unknown unary operator."
    );
}

#[test]
fn test_unary_operators() {
    assert_eq!(whole(unary(TokenType::Minus, &i(5))), -5);
    assert_eq!(
        message(unary(TokenType::Minus, &i(i64::MIN))),
        "Integer result out of range"
    );
    match unary(TokenType::Minus, &SoxObject::from_bits(0x3fe0_0000_0000_0000)) {
        Outcome::Value(SoxObject::Float(x)) => assert_eq!(x.value, 0xbfe0_0000_0000_0000),
        other => panic!("{:?}", other),
    }
    assert!(truth(unary(TokenType::Bang, &SoxObject::none())));
    assert!(!truth(unary(TokenType::Bang, &i(0))));
}

#[test]
fn test_truthiness() {
    assert!(!is_truthy(&SoxObject::none()));
    assert!(!is_truthy(&SoxObject::from_bool(false)));
    assert!(is_truthy(&SoxObject::from_bool(true)));
    assert!(is_truthy(&i(0)));
    assert!(is_truthy(&SoxObject::from_string(String::new())));
    assert!(is_truthy(&SoxObject::from_bits(0)));
    assert!(is_truthy(&SoxObject::Type(0)));
}

#[test]
fn test_values_of_the_built_in_kinds() {
    let t = SoxBool::new(true);
    assert!(!t.not().value);
    assert!(t.bool().value);
    assert!(t.bool_().value);
    assert!(t.equals(&SoxObject::from_bool(true)).value);
    assert!(!t.equals(&i(1)).value);
    assert!(!SoxNone.bool().value);
    assert!(SoxNone.equals(&SoxObject::none()).value);
    assert!(!SoxNone.equals(&SoxObject::from_bool(false)).value);
    let seven = SoxInt::new(7);
    assert_eq!(seven.repr(), "7");
    assert_eq!(SoxInt::new(0).repr(), "0");
    assert_eq!(SoxInt::new(-120).repr(), "-120");
    assert_eq!(SoxInt::new(i64::MIN).repr(), "-9223372036854775808");
    assert_eq!(SoxInt::new(i64::MAX).repr(), "9223372036854775807");
    assert!(seven.equals(&i(7)).value);
    assert!(!seven.equals(&i(8)).value);
    assert_eq!(seven.into_ref().val.value, 7);
    assert!(matches!(seven.into_sox_obj(), SoxObject::Int(v) if v.value == 7));
    let text = SoxString::new("ab".to_string());
    assert!(text
        .equals(&SoxObject::from_string("ab".to_string()))
        .value);
    assert!(!text.equals(&SoxObject::from_string("b".to_string())).value);
    assert_eq!(text.clone().into_ref().val.value, "ab");
    assert!(matches!(text.into_sox_obj(), SoxObject::String(s) if s.val.value == "ab"));
}

#[test]
fn test_shared_values() {
    let shared = SoxRef::new(SoxString::new("x".to_string()));
    let again = shared.clone();
    assert_eq!(again.val.value, "x");
    assert!(std::rc::Rc::ptr_eq(&shared.val, &again.val));
    let value = SoxObject::String(shared);
    let copy = value.clone();
    assert_eq!(copy.as_string().unwrap().val.value, "x");
    assert!(copy.as_int().is_none());
    assert!(copy.as_float().is_none());
    assert!(copy.as_bool().is_none());
    assert!(copy.as_none().is_none());
    assert!(copy.as_func().is_none());
    assert!(copy.as_exception().is_none());
    assert!(copy.as_type().is_none());
    assert!(copy.as_class_instance().is_none());
    assert_eq!(SoxObject::Type(4).as_type(), Some(4));
    assert_eq!(SoxObject::from_bits(9).as_float().unwrap().value, 9);
    assert!(SoxObject::from_bool(true).as_bool().unwrap().value);
    assert!(SoxObject::none().as_none().is_some());
}

#[test]
fn test_exceptions() {
    let error = RuntimeError::new("bad");
    assert_eq!(error.repr(), "bad");
    assert_eq!(RuntimeError::default().msg, "");
    let failure = Exception::from_error(error.clone());
    assert_eq!(failure.repr(), "bad");
    assert_eq!(RuntimeError::from_exception(failure).msg, "bad");
    let returned = Exception::Return(i(1));
    assert_eq!(returned.repr(), "Return");
    assert_eq!(RuntimeError::from_exception(returned).msg, "");
    let value = sox::interpreter::Interpreter::runtime_error("worse".to_string());
    assert_eq!(value.as_exception().unwrap().val.repr(), "worse");
}

#[test]
fn test_native_methods() {
    let equals = SoxMethod::new(NativeFunction::IntEquals);
    assert!(truth(equals.call(&FuncArgs::new(vec![i(1), i(1)]))));
    assert!(!truth(equals.call(&FuncArgs::new(vec![i(1), i(2)]))));
    assert_eq!(
        message(equals.call(&FuncArgs::new(vec![i(1)]))),
        "Too few argument supplied to function"
    );
    assert_eq!(
        message(equals.call(&FuncArgs::new(vec![SoxObject::none(), i(1)]))),
        "failed to get receiver from supplied object"
    );
    let truthiness = SoxMethod::new(NativeFunction::BoolBool);
    assert!(truth(
        truthiness.call(&FuncArgs::new(vec![SoxObject::from_bool(true)]))
    ));
    let none = SoxMethod::new(NativeFunction::NoneBool);
    assert!(!truth(none.call(&FuncArgs::new(vec![SoxObject::none()]))));
    assert_eq!(
        message(none.call(&FuncArgs::new(vec![]))),
        "Too few argument supplied to function"
    );
}

#[test]
fn test_built_in_classes() {
    let types = TypeLibrary::init();
    let equals = "equals".to_string();
    let truthiness = "bool".to_string();
    assert_eq!(types.int_type.name, Some("int".to_string()));
    assert_eq!(types.int_type.native(&equals), Some(NativeFunction::IntEquals));
    assert_eq!(types.int_type.native(&truthiness), None);
    assert_eq!(types.bool_type.native(&truthiness), Some(NativeFunction::BoolBool));
    assert_eq!(types.bool_type.native(&equals), Some(NativeFunction::BoolEquals));
    assert_eq!(types.none_type.native(&truthiness), Some(NativeFunction::NoneBool));
    assert_eq!(types.float_type.native(&equals), Some(NativeFunction::FloatEquals));
    assert_eq!(types.str_type.native(&equals), Some(NativeFunction::StringEquals));
    assert_eq!(types.func_type.native(&equals), Some(NativeFunction::FunctionEquals));
    assert_eq!(types.type_type.native(&equals), None);
    assert_eq!(types.exception_type.native(&equals), None);
    assert!(types.func_type.slots.call.is_some());
    assert!(types.type_type.slots.call.is_some());
    assert!(types.int_type.slots.call.is_none());
    assert_eq!(types.type_type.repr(), "<type 'type'>");
}

#[test]
fn test_values_that_a_machine_makes() {
    let machine = Interpreter::new();
    assert_eq!(machine.new_int(-3).as_int().unwrap().value, -3);
    assert!(machine.new_bool(true).as_bool().unwrap().value);
    assert_eq!(machine.new_string("s".to_string()).as_string().unwrap().val.value, "s");
    assert_eq!(machine.new_float(1.5f64.to_bits()).as_float().unwrap().value, 1.5f64.to_bits());
    assert!(machine.new_none().as_none().is_some());
    assert!(machine.new_none().as_int().is_none());
}
