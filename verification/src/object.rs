use std::rc::Rc;
use vstd::prelude::*;
use crate::builtins::bool_::SoxBool;
use crate::builtins::exceptions::{Exception, RuntimeError};
use crate::builtins::float::{FloatRequest, FloatRequestView, SoxFloat};
use crate::builtins::function::SoxFunction;
use crate::builtins::integer::SoxInt;
use crate::builtins::none::SoxNone;
use crate::builtins::string::SoxString;
use crate::builtins::types::SoxType;
use crate::interpreter::{Interpreter, Rendered};
use crate::operators::truthy;

verus! {

/// `Rc::clone`: a second handle to the same value, equal to the first.
#[verifier::external_body]
fn share<T>(r: &Rc<T>) -> (res: Rc<T>)
    ensures
        res == *r,
{
    Rc::clone(r)
}

/// A shared, immutable value.
#[derive(Debug, PartialEq)]
pub struct SoxRef<T> {
    pub val: Rc<T>,
}

impl<T> SoxRef<T> {
    pub fn new(obj: T) -> (r: Self)
        ensures
            *r.val == obj,
    {
        SoxRef { val: Rc::new(obj) }
    }
}

impl<T> Clone for SoxRef<T> {
    fn clone(&self) -> (r: Self)
        ensures
            r == *self,
    {
        SoxRef { val: share(&self.val) }
    }
}

/// A runtime value.
///
/// Integers, fractional numbers, booleans and `None` are copied. Strings and
/// functions are shared. A class is the index of its descriptor in the
/// interpreter's class table, an instance the index of its record in the
/// interpreter's instance table: both tables only grow.
#[derive(Debug)]
pub enum SoxObject<'a> {
    Int(SoxInt),
    String(SoxRef<SoxString>),
    Float(SoxFloat),
    Boolean(SoxBool),
    Function(SoxRef<SoxFunction<'a>>),
    Exception(SoxRef<Exception<'a>>),
    Nil(SoxNone),
    Type(usize),
    TypeInstance(usize),
}

impl<'a> Clone for SoxObject<'a> {
    fn clone(&self) -> (r: Self)
        ensures
            r == *self,
    {
        match self {
            SoxObject::Int(v) => SoxObject::Int(*v),
            SoxObject::String(v) => SoxObject::String(v.clone()),
            SoxObject::Float(v) => SoxObject::Float(*v),
            SoxObject::Boolean(v) => SoxObject::Boolean(*v),
            SoxObject::Function(v) => SoxObject::Function(v.clone()),
            SoxObject::Exception(v) => SoxObject::Exception(v.clone()),
            SoxObject::Nil(v) => SoxObject::Nil(*v),
            SoxObject::Type(v) => SoxObject::Type(*v),
            SoxObject::TypeInstance(v) => SoxObject::TypeInstance(*v),
        }
    }
}

/// What a runtime value is, with texts as sequences of characters.
pub enum Value<'a> {
    Int(i64),
    Str(Seq<char>),
    Float(u64),
    Boolean(bool),
    Function(SoxFunction<'a>),
    Exception(Exception<'a>),
    Nil,
    Type(usize),
    TypeInstance(usize),
}

impl<'a> View for SoxObject<'a> {
    type V = Value<'a>;

    open spec fn view(&self) -> Value<'a> {
        match *self {
            SoxObject::Int(v) => Value::Int(v.value),
            SoxObject::String(v) => Value::Str(v.val.value@),
            SoxObject::Float(v) => Value::Float(v.value),
            SoxObject::Boolean(v) => Value::Boolean(v.value),
            SoxObject::Function(v) => Value::Function(*v.val),
            SoxObject::Exception(v) => Value::Exception(*v.val),
            SoxObject::Nil(_) => Value::Nil,
            SoxObject::Type(v) => Value::Type(v),
            SoxObject::TypeInstance(v) => Value::TypeInstance(v),
        }
    }
}

/// How an operation on values ends: with a value, with a runtime error, or
/// with work for the host, whose answer is the value.
#[derive(Debug)]
pub enum Outcome<'a> {
    Value(SoxObject<'a>),
    Failure(RuntimeError),
    Float(FloatRequest),
}

/// What an `Outcome` says, with texts as sequences of characters.
pub enum OutcomeView<'a> {
    Value(Value<'a>),
    Failure(Seq<char>),
    Float(FloatRequestView),
}

impl<'a> View for Outcome<'a> {
    type V = OutcomeView<'a>;

    open spec fn view(&self) -> OutcomeView<'a> {
        match *self {
            Outcome::Value(v) => OutcomeView::Value(v@),
            Outcome::Failure(e) => OutcomeView::Failure(e.msg@),
            Outcome::Float(q) => OutcomeView::Float(q@),
        }
    }
}

impl<'a> SoxObject<'a> {
    /// The value `None`.
    pub fn none() -> (r: Self)
        ensures
            r@ == Value::<'a>::Nil,
    {
        SoxObject::Nil(SoxNone)
    }

    /// A boolean value.
    pub fn from_bool(b: bool) -> (r: Self)
        ensures
            r@ == Value::<'a>::Boolean(b),
    {
        SoxObject::Boolean(SoxBool { value: b })
    }

    /// An integer value.
    pub fn from_int(i: i64) -> (r: Self)
        ensures
            r@ == Value::<'a>::Int(i),
    {
        SoxObject::Int(SoxInt { value: i })
    }

    /// A fractional number, from its bits.
    pub fn from_bits(bits: u64) -> (r: Self)
        ensures
            r@ == Value::<'a>::Float(bits),
    {
        SoxObject::Float(SoxFloat { value: bits })
    }

    /// A string value.
    pub fn from_string(s: String) -> (r: Self)
        ensures
            r@ == Value::<'a>::Str(s@),
    {
        SoxObject::String(SoxRef::new(SoxString { value: s }))
    }

    /// The class descriptor of the value.
    pub fn sox_type<'b>(&self, i: &'b Interpreter<'a>) -> (r: Option<&'b SoxType<'a>>)
        ensures
            match r {
                Some(t) => i.class_of(*self) == Some(*t),
                None => i.class_of(*self) is None,
            },
    {
        i.sox_type(self)
    }

    /// How the value is shown.
    pub fn repr(&self, i: &Interpreter<'a>) -> (r: Rendered)
        ensures
            match *self {
                SoxObject::Float(x) => r == Rendered::Float(x),
                _ => r matches Rendered::Text(s) && s@ == i.text_of(*self),
            },
    {
        i.repr(self)
    }

    /// Whether the value counts as true.
    pub fn try_into_rust_bool(&self, i: &Interpreter<'a>) -> (r: bool)
        requires
            i.wf(),
        ensures
            r == truthy(self@),
    {
        i.try_into_rust_bool(self)
    }

    pub fn as_int(&self) -> (r: Option<SoxInt>)
        ensures
            r == (match *self {
                SoxObject::Int(v) => Some(v),
                _ => None,
            }),
    {
        match self {
            SoxObject::Int(v) => Some(*v),
            _ => None,
        }
    }

    pub fn as_float(&self) -> (r: Option<SoxFloat>)
        ensures
            r == (match *self {
                SoxObject::Float(v) => Some(v),
                _ => None,
            }),
    {
        match self {
            SoxObject::Float(v) => Some(*v),
            _ => None,
        }
    }

    pub fn as_bool(&self) -> (r: Option<SoxBool>)
        ensures
            r == (match *self {
                SoxObject::Boolean(v) => Some(v),
                _ => None,
            }),
    {
        match self {
            SoxObject::Boolean(v) => Some(*v),
            _ => None,
        }
    }

    pub fn as_string(&self) -> (r: Option<SoxRef<SoxString>>)
        ensures
            r == (match *self {
                SoxObject::String(v) => Some(v),
                _ => None,
            }),
    {
        match self {
            SoxObject::String(v) => Some(v.clone()),
            _ => None,
        }
    }

    pub fn as_none(&self) -> (r: Option<SoxNone>)
        ensures
            r == (match *self {
                SoxObject::Nil(v) => Some(v),
                _ => None,
            }),
    {
        match self {
            SoxObject::Nil(v) => Some(*v),
            _ => None,
        }
    }

    pub fn as_func(&self) -> (r: Option<SoxRef<SoxFunction<'a>>>)
        ensures
            r == (match *self {
                SoxObject::Function(v) => Some(v),
                _ => None,
            }),
    {
        match self {
            SoxObject::Function(v) => Some(v.clone()),
            _ => None,
        }
    }

    pub fn as_exception(&self) -> (r: Option<SoxRef<Exception<'a>>>)
        ensures
            r == (match *self {
                SoxObject::Exception(v) => Some(v),
                _ => None,
            }),
    {
        match self {
            SoxObject::Exception(v) => Some(v.clone()),
            _ => None,
        }
    }

    /// The index of the class descriptor, for a class.
    pub fn as_type(&self) -> (r: Option<usize>)
        ensures
            r == (match *self {
                SoxObject::Type(v) => Some(v),
                _ => None,
            }),
    {
        match self {
            SoxObject::Type(v) => Some(*v),
            _ => None,
        }
    }

    /// The index of the instance record, for an instance.
    pub fn as_class_instance(&self) -> (r: Option<usize>)
        ensures
            r == (match *self {
                SoxObject::TypeInstance(v) => Some(v),
                _ => None,
            }),
    {
        match self {
            SoxObject::TypeInstance(v) => Some(*v),
            _ => None,
        }
    }
}

} // verus!
