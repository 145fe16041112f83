use vstd::prelude::*;
use crate::builtins::bool_::SoxBool;
use crate::object::{SoxObject, SoxRef};

verus! {

/// A string value.
#[derive(Debug)]
pub struct SoxString {
    pub value: String,
}

impl Clone for SoxString {
    fn clone(&self) -> (r: Self)
        ensures
            r == *self,
    {
        SoxString { value: self.value.clone() }
    }
}

impl SoxString {
    pub fn new(val: String) -> (r: Self)
        ensures
            r.value == val,
    {
        SoxString { value: val }
    }

    /// The string behind a shared reference.
    pub fn into_ref(self) -> (r: SoxRef<SoxString>)
        ensures
            *r.val == self,
    {
        SoxRef::new(self)
    }

    /// The string as a runtime value.
    pub fn into_sox_obj<'a>(self) -> (r: SoxObject<'a>)
        ensures
            r matches SoxObject::String(s) && *s.val == self,
    {
        SoxObject::String(SoxRef::new(self))
    }

    /// Strings compare by content.
    pub fn equals(&self, rhs: &SoxObject) -> (r: SoxBool)
        ensures
            r.value == (rhs matches SoxObject::String(s) && s.val.value@ == self.value@),
    {
        match rhs {
            SoxObject::String(other) => SoxBool::new(self.value == other.val.value),
            _ => SoxBool::new(false),
        }
    }
}

} // verus!
