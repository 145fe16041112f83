use vstd::prelude::*;
use crate::object::SoxObject;

verus! {

/// What stops the evaluation of a statement before its end.
#[derive(Debug)]
pub enum Exception<'a> {
    /// A runtime error, which ends the program.
    Failure(RuntimeError),
    /// A `return` on its way to the call that it ends. Never shown to the user.
    Return(SoxObject<'a>),
}

/// A runtime error and its message.
#[derive(Debug, PartialEq, Eq)]
pub struct RuntimeError {
    pub msg: String,
}

impl Clone for RuntimeError {
    fn clone(&self) -> (r: Self)
        ensures
            r == *self,
    {
        RuntimeError { msg: self.msg.clone() }
    }
}

impl Default for RuntimeError {
    fn default() -> (r: Self)
        ensures
            r.msg@ == Seq::<char>::empty(),
    {
        RuntimeError { msg: String::new() }
    }
}

impl RuntimeError {
    /// The error with the given message.
    pub fn new(msg: &str) -> (r: Self)
        ensures
            r.msg@ == msg@,
    {
        RuntimeError { msg: String::from_str(msg) }
    }

    /// The error of an exception; the empty message for a `return`.
    pub fn from_exception(value: Exception) -> (r: Self)
        ensures
            r.msg@ == (match value {
                Exception::Failure(e) => e.msg@,
                Exception::Return(_) => Seq::<char>::empty(),
            }),
    {
        match value {
            Exception::Failure(v) => v,
            Exception::Return(_) => RuntimeError { msg: String::new() },
        }
    }

    /// What is shown to the user.
    pub fn repr(&self) -> (r: String)
        ensures
            r@ == self.msg@,
    {
        self.msg.clone()
    }
}

impl<'a> Exception<'a> {
    /// The exception of a runtime error.
    pub fn from_error(value: RuntimeError) -> (r: Self)
        ensures
            r == Exception::<'a>::Failure(value),
    {
        Exception::Failure(value)
    }

    /// What is shown to the user: the message, or the word `Return`.
    pub fn repr(&self) -> (r: String)
        ensures
            r@ == (match *self {
                Exception::Failure(e) => e.msg@,
                Exception::Return(_) => "Return"@,
            }),
    {
        match self {
            Exception::Failure(v) => v.repr(),
            Exception::Return(_) => String::from_str("Return"),
        }
    }
}

} // verus!
