use vstd::prelude::*;
use crate::builtins::integer::SoxInt;
use crate::object::{Outcome, SoxObject, Value};
use crate::operators::{equal, equal_result};
use crate::token_type::TokenType;

verus! {

/// A fractional number, held as the 64 bits of its IEEE 754 binary64 form.
///
/// The library never computes with these bits, except to flip the sign: it
/// hands them to the host and gets bits back.
#[derive(Debug, Clone, Copy, PartialEq, Eq, Structural)]
pub struct SoxFloat {
    pub value: u64,
}

impl SoxFloat {
    pub fn new(val: u64) -> (r: Self)
        ensures
            r.value == val,
    {
        SoxFloat { value: val }
    }

    /// Compares a fractional number with a value: against a number the host
    /// compares, and every other value is unequal.
    pub fn equals<'a>(&self, rhs: &SoxObject<'a>) -> (r: Outcome<'a>)
        ensures
            r@ == equal_result(Value::<'a>::Float(self.value), rhs@),
    {
        equal(&SoxObject::Float(*self), rhs)
    }

    /// The number with its sign bit flipped, which is IEEE 754 negation.
    pub fn negated(&self) -> (r: Self)
        ensures
            r.value == self.value ^ 0x8000_0000_0000_0000u64,
    {
        SoxFloat { value: self.value ^ 0x8000_0000_0000_0000u64 }
    }
}

/// A number as it is handed to the host.
#[derive(Debug, Clone, Copy, PartialEq, Eq, Structural)]
pub enum Number {
    Int(SoxInt),
    Float(SoxFloat),
}

/// Work on fractional numbers that the library asks of its host. An integer
/// operand is first widened to a fractional number.
#[derive(Debug)]
pub enum FloatRequest {
    /// The number that a decimal literal denotes. Answer: `FloatReply::Float`.
    Parse(String),
    /// `left operator right`, where the operator is one of `+ - * / %` (`%` is
    /// the IEEE 754 remainder). Answer: `FloatReply::Float`.
    Arithmetic { operator: TokenType, left: Number, right: Number },
    /// `left operator right`, where the operator is one of `< <= > >= ==`.
    /// Answer: `FloatReply::Bool`.
    Compare { operator: TokenType, left: Number, right: Number },
    /// The text that shows the number. Answer: `FloatReply::Text`.
    Render(SoxFloat),
}

/// What a `FloatRequest` says, with texts as sequences of characters.
pub enum FloatRequestView {
    Parse(Seq<char>),
    Arithmetic { operator: TokenType, left: Number, right: Number },
    Compare { operator: TokenType, left: Number, right: Number },
    Render(SoxFloat),
}

impl View for FloatRequest {
    type V = FloatRequestView;

    open spec fn view(&self) -> FloatRequestView {
        match *self {
            FloatRequest::Parse(s) => FloatRequestView::Parse(s@),
            FloatRequest::Arithmetic { operator, left, right } => FloatRequestView::Arithmetic {
                operator,
                left,
                right,
            },
            FloatRequest::Compare { operator, left, right } => FloatRequestView::Compare {
                operator,
                left,
                right,
            },
            FloatRequest::Render(x) => FloatRequestView::Render(x),
        }
    }
}

/// The host's answer to a `FloatRequest`.
#[derive(Debug)]
pub enum FloatReply {
    Float(SoxFloat),
    Bool(bool),
    Text(String),
}

} // verus!
