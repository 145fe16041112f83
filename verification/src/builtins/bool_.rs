use vstd::prelude::*;
use crate::object::SoxObject;

verus! {

/// A boolean value.
#[derive(Debug, Clone, Copy, PartialEq, Eq, Structural)]
pub struct SoxBool {
    pub value: bool,
}

impl SoxBool {
    pub fn new(val: bool) -> (r: Self)
        ensures
            r.value == val,
    {
        SoxBool { value: val }
    }

    /// The negation.
    pub fn not(&self) -> (r: Self)
        ensures
            r.value == !self.value,
    {
        SoxBool::new(!self.value)
    }

    /// The truth value of a boolean is itself.
    pub fn bool(&self) -> (r: Self)
        ensures
            r == *self,
    {
        *self
    }

    /// The truth value of a boolean is itself.
    pub fn bool_(&self) -> (r: Self)
        ensures
            r == *self,
    {
        *self
    }

    /// A boolean equals another boolean of the same value and nothing else.
    pub fn equals(&self, rhs: &SoxObject) -> (r: Self)
        ensures
            r.value == (rhs matches SoxObject::Boolean(b) && b.value == self.value),
    {
        match rhs {
            SoxObject::Boolean(other) => SoxBool::new(self.value == other.value),
            _ => SoxBool::new(false),
        }
    }
}

} // verus!
