use vstd::prelude::*;
use crate::builtins::method::{NativeFunction, SoxMethod};
use crate::builtins::types::{native_of, GenericMethod, SoxType, SoxTypeSlot};
use crate::table::position;

verus! {

/// The descriptors of the built-in classes.
#[derive(Debug)]
pub struct TypeLibrary<'a> {
    pub bool_type: SoxType<'a>,
    pub float_type: SoxType<'a>,
    pub int_type: SoxType<'a>,
    pub str_type: SoxType<'a>,
    pub none_type: SoxType<'a>,
    pub exception_type: SoxType<'a>,
    pub func_type: SoxType<'a>,
    pub type_type: SoxType<'a>,
}

/// The class has the name and the call slot given, `equals` as given, and
/// `bool` as given.
pub open spec fn describes(
    class: SoxType<'_>,
    name: Seq<char>,
    call: Option<GenericMethod>,
    equals: Option<NativeFunction>,
    truth: Option<NativeFunction>,
) -> bool {
    &&& class.name_text() == name
    &&& class.slots.call == call
    &&& native_of(class, "equals"@) == equals
    &&& native_of(class, "bool"@) == truth
}

/// A built-in class with the natives given: `bool` first, where it has one.
fn builtin<'a>(
    name: &str,
    call: Option<GenericMethod>,
    equals: Option<NativeFunction>,
    truth: Option<NativeFunction>,
) -> (r: SoxType<'a>)
    ensures
        describes(r, name@, call, equals, truth),
{
    proof {
        reveal_strlit("equals");
        reveal_strlit("bool");
    }
    let mut methods: Vec<(String, SoxMethod)> = Vec::new();
    let mut slot_methods: Vec<(String, SoxMethod)> = Vec::new();
    match truth {
        Some(f) => {
            methods.push((String::from_str("bool"), SoxMethod::new(f)));
            slot_methods.push((String::from_str("bool"), SoxMethod::new(f)));
        },
        None => {},
    }
    match equals {
        Some(f) => {
            methods.push((String::from_str("equals"), SoxMethod::new(f)));
            slot_methods.push((String::from_str("equals"), SoxMethod::new(f)));
        },
        None => {},
    }
    let slots = SoxTypeSlot { call, methods: slot_methods };
    let r = SoxType::new_static_type(name, None, methods, slots, Vec::new());
    proof {
        let m = r.slots.methods@;
        assert("equals"@.len() == 6);
        assert("bool"@.len() == 4);
        assert("equals"@ != "bool"@);
        reveal_with_fuel(position, 3);
        if truth is Some && equals is Some {
            assert(m.len() == 2 && m[0].0@ == "bool"@ && m[1].0@ == "equals"@);
        } else if truth is Some {
            assert(m.len() == 1 && m[0].0@ == "bool"@);
        } else if equals is Some {
            assert(m.len() == 1 && m[0].0@ == "equals"@);
        } else {
            assert(m.len() == 0);
        }
    }
    r
}

impl<'a> TypeLibrary<'a> {
    /// Each built-in class has its name, its call slot and its natives.
    pub open spec fn wf(&self) -> bool {
        &&& describes(
            self.bool_type,
            "bool"@,
            None,
            Some(NativeFunction::BoolEquals),
            Some(NativeFunction::BoolBool),
        )
        &&& describes(self.float_type, "float"@, None, Some(NativeFunction::FloatEquals), None)
        &&& describes(self.int_type, "int"@, None, Some(NativeFunction::IntEquals), None)
        &&& describes(self.str_type, "string"@, None, Some(NativeFunction::StringEquals), None)
        &&& describes(
            self.none_type,
            "none"@,
            None,
            Some(NativeFunction::NoneEquals),
            Some(NativeFunction::NoneBool),
        )
        &&& describes(self.exception_type, "exception"@, None, None, None)
        &&& describes(
            self.func_type,
            "function"@,
            Some(GenericMethod::FunctionCall),
            Some(NativeFunction::FunctionEquals),
            None,
        )
        &&& describes(self.type_type, "type"@, Some(GenericMethod::TypeCall), None, None)
    }

    /// The descriptors of the built-in classes.
    pub fn init() -> (r: Self)
        ensures
            r.wf(),
    {
        TypeLibrary {
            bool_type: builtin(
                "bool",
                None,
                Some(NativeFunction::BoolEquals),
                Some(NativeFunction::BoolBool),
            ),
            float_type: builtin("float", None, Some(NativeFunction::FloatEquals), None),
            int_type: builtin("int", None, Some(NativeFunction::IntEquals), None),
            str_type: builtin("string", None, Some(NativeFunction::StringEquals), None),
            none_type: builtin(
                "none",
                None,
                Some(NativeFunction::NoneEquals),
                Some(NativeFunction::NoneBool),
            ),
            exception_type: builtin("exception", None, None, None),
            func_type: builtin(
                "function",
                Some(GenericMethod::FunctionCall),
                Some(NativeFunction::FunctionEquals),
                None,
            ),
            type_type: builtin("type", Some(GenericMethod::TypeCall), None, None),
        }
    }
}

} // verus!
