use vstd::prelude::*;
use crate::builtins::exceptions::RuntimeError;
use crate::object::{Outcome, SoxObject, Value, OutcomeView};
use crate::operators::{equal, equal_result};

verus! {

/// The methods that the built-in classes implement natively.
#[derive(Debug, Clone, Copy, PartialEq, Eq, Structural)]
pub enum NativeFunction {
    BoolBool,
    BoolEquals,
    IntEquals,
    FloatEquals,
    StringEquals,
    NoneBool,
    NoneEquals,
    FunctionEquals,
}

/// An entry of a built-in class's method table.
#[derive(Debug, Clone, Copy, PartialEq, Eq, Structural)]
pub struct SoxMethod {
    pub func: NativeFunction,
}

impl SoxMethod {
    pub fn new(func: NativeFunction) -> (r: Self)
        ensures
            r.func == func,
    {
        SoxMethod { func }
    }
}

/// The arguments of a call, the receiver first where there is one.
#[derive(Debug)]
pub struct FuncArgs<'a> {
    pub args: Vec<SoxObject<'a>>,
}

impl<'a> FuncArgs<'a> {
    pub fn new(args: Vec<SoxObject<'a>>) -> (r: Self)
        ensures
            r.args == args,
    {
        FuncArgs { args }
    }
}

/// The receiver is of the kind that the native method belongs to.
pub open spec fn receiver_fits(func: NativeFunction, receiver: Value<'_>) -> bool {
    match func {
        NativeFunction::BoolBool | NativeFunction::BoolEquals => receiver is Boolean,
        NativeFunction::IntEquals => receiver is Int,
        NativeFunction::FloatEquals => receiver is Float,
        NativeFunction::StringEquals => receiver is Str,
        NativeFunction::NoneBool | NativeFunction::NoneEquals => receiver is Nil,
        NativeFunction::FunctionEquals => receiver is Function,
    }
}

/// The native method takes a second argument.
pub open spec fn is_equals(func: NativeFunction) -> bool {
    func != NativeFunction::BoolBool && func != NativeFunction::NoneBool
}

/// What a native method gives for its arguments, the receiver first.
pub open spec fn native_result<'a>(func: NativeFunction, args: Seq<SoxObject<'a>>) -> OutcomeView<'a> {
    if args.len() == 0 || (is_equals(func) && args.len() < 2) {
        OutcomeView::Failure("Too few argument supplied to function"@)
    } else if !receiver_fits(func, args[0]@) {
        OutcomeView::Failure("failed to get receiver from supplied object"@)
    } else if is_equals(func) {
        equal_result(args[0]@, args[1]@)
    } else {
        match args[0]@ {
            Value::Boolean(b) => OutcomeView::Value(Value::Boolean(b)),
            _ => OutcomeView::Value(Value::Boolean(false)),
        }
    }
}

impl SoxMethod {
    /// Whether the receiver is of the kind that the method belongs to.
    fn fits(&self, receiver: &SoxObject) -> (r: bool)
        ensures
            r == receiver_fits(self.func, receiver@),
    {
        match self.func {
            NativeFunction::BoolBool | NativeFunction::BoolEquals => match receiver {
                SoxObject::Boolean(_) => true,
                _ => false,
            },
            NativeFunction::IntEquals => match receiver {
                SoxObject::Int(_) => true,
                _ => false,
            },
            NativeFunction::FloatEquals => match receiver {
                SoxObject::Float(_) => true,
                _ => false,
            },
            NativeFunction::StringEquals => match receiver {
                SoxObject::String(_) => true,
                _ => false,
            },
            NativeFunction::NoneBool | NativeFunction::NoneEquals => match receiver {
                SoxObject::Nil(_) => true,
                _ => false,
            },
            NativeFunction::FunctionEquals => match receiver {
                SoxObject::Function(_) => true,
                _ => false,
            },
        }
    }

    /// Runs the native method on the arguments, the receiver first.
    pub fn call<'a>(&self, args: &FuncArgs<'a>) -> (r: Outcome<'a>)
        ensures
            r@ == native_result(self.func, args.args@),
    {
        let takes_two = match self.func {
            NativeFunction::BoolBool | NativeFunction::NoneBool => false,
            _ => true,
        };
        if args.args.len() == 0 || (takes_two && args.args.len() < 2) {
            return Outcome::Failure(RuntimeError::new("Too few argument supplied to function"));
        }
        if !self.fits(&args.args[0]) {
            return Outcome::Failure(
                RuntimeError::new("failed to get receiver from supplied object"),
            );
        }
        if takes_two {
            equal(&args.args[0], &args.args[1])
        } else {
            match &args.args[0] {
                SoxObject::Boolean(b) => Outcome::Value(SoxObject::Boolean(b.bool())),
                _ => Outcome::Value(SoxObject::Boolean(crate::builtins::none::SoxNone.bool())),
            }
        }
    }
}

/// A call found its arguments wanting.
#[derive(Debug, Clone, Copy, PartialEq, Eq, Structural)]
pub struct ArgumentError;

} // verus!
