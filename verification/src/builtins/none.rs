use vstd::prelude::*;
use crate::builtins::bool_::SoxBool;
use crate::object::SoxObject;

verus! {

/// The value `None`.
#[derive(Debug, Clone, Copy, PartialEq, Eq, Structural)]
pub struct SoxNone;

impl SoxNone {
    /// `None` is false.
    pub fn bool(&self) -> (r: SoxBool)
        ensures
            !r.value,
    {
        SoxBool::new(false)
    }

    /// `None` equals `None` and nothing else.
    pub fn equals(&self, rhs: &SoxObject) -> (r: SoxBool)
        ensures
            r.value == (rhs is Nil),
    {
        match rhs {
            SoxObject::Nil(_) => SoxBool::new(true),
            _ => SoxBool::new(false),
        }
    }
}

} // verus!
