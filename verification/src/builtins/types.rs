use vstd::prelude::*;
use crate::builtins::exceptions::RuntimeError;
use crate::builtins::function::{arity_error, arity_error_text, call_effect, SoxFunction};
use crate::environment::Environment;
use crate::builtins::method::{FuncArgs, NativeFunction, SoxMethod};
use crate::interpreter::{Action, Control, Interpreter, Kont};
use crate::object::SoxObject;
use crate::table::{find_entry, position};
use crate::token::Token;

verus! {

/// What calling a value of a class does.
#[derive(Debug, Clone, Copy, PartialEq, Eq, Structural)]
pub enum GenericMethod {
    /// Calls a function value.
    FunctionCall,
    /// Calls a class: makes an instance.
    TypeCall,
}

/// The slots of a class: what a call does, if anything, and the native
/// methods.
#[derive(Debug)]
pub struct SoxTypeSlot {
    pub call: Option<GenericMethod>,
    pub methods: Vec<(String, SoxMethod)>,
}

/// A class descriptor.
///
/// `base` is the index of the superclass in the class table that holds this
/// descriptor. `attributes` are the methods that the class declares, by name.
#[derive(Debug)]
pub struct SoxType<'a> {
    pub base: Option<usize>,
    pub methods: Vec<(String, SoxMethod)>,
    pub slots: SoxTypeSlot,
    pub attributes: Vec<(String, SoxObject<'a>)>,
    pub name: Option<String>,
}

/// An instance of a class: its class, by index in the class table, and its
/// fields.
#[derive(Debug)]
pub struct SoxInstance<'a> {
    pub typ: usize,
    pub fields: Vec<(String, SoxObject<'a>)>,
}

/// The method of the name that an instance of the class at index `class`
/// answers to: the class's own, else its superclass's, and so on. A
/// superclass stands before its subclasses in the table.
pub open spec fn method_of<'a>(classes: Seq<SoxType<'a>>, class: int, name: Seq<char>) -> Option<
    SoxObject<'a>,
>
    decreases class,
{
    if class < 0 || class >= classes.len() {
        None
    } else {
        match position(classes[class].attributes@, name, 0) {
            Some(i) => Some(classes[class].attributes@[i].1),
            None => match classes[class].base {
                Some(b) if b < class => method_of(classes, b as int, name),
                _ => None,
            },
        }
    }
}

/// The number of arguments that a call of the class takes: as many as its
/// `init` method, and none without one.
pub open spec fn arity_of<'a>(classes: Seq<SoxType<'a>>, class: int) -> nat {
    match method_of(classes, class, "init"@) {
        Some(SoxObject::Function(f)) => f.val.arity as nat,
        _ => 0,
    }
}

/// The call of an initializer for a new instance has started, or has failed
/// in the way calls fail: the initializer was bound to the instance, which
/// added a frame, and then called, with the mark on the stack that makes the
/// instance the value of the call.
pub open spec fn init_called<'a>(
    env: Environment<'a>,
    stack: Seq<Kont<'a>>,
    after: Interpreter<'a>,
    init: SoxFunction<'a>,
    instance: SoxObject<'a>,
    args: Seq<SoxObject<'a>>,
) -> bool {
    exists|mid: Environment<'a>, bound: SoxObject<'a>|
        {
            &&& #[trigger] init.binds(
                instance,
                &env,
                &mid,
                Ok::<SoxObject<'a>, RuntimeError>(bound),
            )
            &&& mid.active == env.active
            &&& call_effect(mid, stack.push(Kont::Construct { instance }), after, bound, args)
        }
}

/// What calling `fo` as a class does to the machine.
///
/// `stack` is what was left to do before the call. What is no class of the
/// class table, and the wrong number of arguments, are runtime errors that
/// change nothing else. Else the instance table has one more instance, of
/// that class and without fields. For a class without `init` the instance
/// is the value that goes on. For a class with `init`, the initializer is
/// called; a full frame store is a runtime error.
pub open spec fn type_call_effect<'a>(
    before: Interpreter<'a>,
    stack: Seq<Kont<'a>>,
    after: Interpreter<'a>,
    fo: SoxObject<'a>,
    args: Seq<SoxObject<'a>>,
) -> bool {
    let same = after.stack@ == stack && after.environment.unchanged(&before.environment);
    &&& after.types == before.types
    &&& after.classes == before.classes
    &&& after._locals == before._locals
    &&& match fo {
        SoxObject::Type(c) if c < before.classes@.len() => {
            if args.len() != arity_of(before.classes@, c as int) {
                &&& after.raised(arity_error_text(arity_of(before.classes@, c as int), args.len()))
                &&& same
                &&& after.instances == before.instances
            } else {
                let instance = SoxObject::<'a>::TypeInstance(before.instances@.len() as usize);
                &&& after.instances@.len() == before.instances@.len() + 1
                &&& after.instances@.drop_last() == before.instances@
                &&& after.instances@.last().typ == c
                &&& after.instances@.last().fields@.len() == 0
                &&& match method_of(before.classes@, c as int, "init"@) {
                    None => after.control == Control::Deliver(instance) && same,
                    Some(SoxObject::Function(init)) => if before.environment.full() {
                        after.raised("Too many frames"@) && same
                    } else {
                        init_called(before.environment, stack, after, *init.val, instance, args)
                    },
                    Some(_) => after.raised("init resolved to a non function object"@) && same,
                }
            }
        },
        _ => {
            &&& after.raised("first argument to this call method should be a type object"@)
            &&& same
            &&& after.instances == before.instances
        },
    }
}

/// The message for a property that is a method which is no function.
pub open spec fn not_a_function_text(name: Seq<char>) -> Seq<char> {
    "Found property with same name, "@ + name + ", but it is not a function"@
}

/// What reading the property `name` of the instance at index `inst` gives,
/// and the frames `env` after it.
///
/// The first field of that name gives its value, and no frame changes. Else
/// the method of that name that the instance's class answers to is bound to
/// the instance, which adds a frame. An instance with neither, and an index
/// beyond the instance table, give a runtime error and change no frame.
pub open spec fn property_read<'a>(
    before: Interpreter<'a>,
    inst: usize,
    name: Seq<char>,
    env: Environment<'a>,
    r: Result<SoxObject<'a>, RuntimeError>,
) -> bool {
    if inst >= before.instances@.len() {
        r is Err && r->Err_0.msg@ == "The instance is gone"@ && env.unchanged(&before.environment)
    } else {
        match position(before.instances@[inst as int].fields@, name, 0) {
            Some(i) => {
                &&& r == Ok::<SoxObject<'a>, RuntimeError>(
                    before.instances@[inst as int].fields@[i].1,
                )
                &&& env.unchanged(&before.environment)
            },
            None => match method_of(
                before.classes@,
                before.instances@[inst as int].typ as int,
                name,
            ) {
                Some(SoxObject::Function(m)) => m.val.binds(
                    SoxObject::TypeInstance(inst),
                    &before.environment,
                    &env,
                    r,
                ),
                Some(_) => r is Err && r->Err_0.msg@ == not_a_function_text(name) && env.unchanged(
                    &before.environment,
                ),
                None => r is Err && r->Err_0.msg@ == undefined_property_text(name) && env.unchanged(
                    &before.environment,
                ),
            },
        }
    }
}

/// The message for a property that an instance does not have.
pub open spec fn undefined_property_text(name: Seq<char>) -> Seq<char> {
    "Undefined property "@ + name
}

/// The error for a property that an instance does not have.
pub fn undefined_property(name: &String) -> (r: RuntimeError)
    ensures
        r.msg@ == undefined_property_text(name@),
{
    let mut msg = String::from_str("Undefined property ");
    msg.append(name.as_str());
    RuntimeError { msg }
}

/// Method lookup respects inheritance: a method that the class declares is
/// the one found; for a method that it does not declare, the lookup gives
/// what it gives for the superclass; and a class without a superclass has
/// only the methods that it declares. What other classes or frames hold
/// does not matter.
pub proof fn lemma_method_lookup_respects_inheritance<'a>(
    classes: Seq<SoxType<'a>>,
    class: int,
    name: Seq<char>,
)
    requires
        0 <= class < classes.len(),
        classes[class].base matches Some(b) ==> b < class,
    ensures
        match position(classes[class].attributes@, name, 0) {
            Some(i) => method_of(classes, class, name) == Some(classes[class].attributes@[i].1),
            None => match classes[class].base {
                Some(b) => method_of(classes, class, name) == method_of(classes, b as int, name),
                None => method_of(classes, class, name) is None,
            },
        },
{
}

/// Method lookup looks at the class and the classes above it only: it gives
/// the same in every table that agrees on the classes up to `class`.
pub proof fn lemma_method_lookup_is_local<'a>(
    classes: Seq<SoxType<'a>>,
    longer: Seq<SoxType<'a>>,
    class: int,
    name: Seq<char>,
)
    requires
        0 <= class < classes.len() <= longer.len(),
        forall|c: int| 0 <= c <= class ==> classes[c] == longer[c],
    ensures
        method_of(classes, class, name) == method_of(longer, class, name),
    decreases class,
{
    if position(classes[class].attributes@, name, 0) is None {
        match classes[class].base {
            Some(b) => {
                if b < class {
                    lemma_method_lookup_is_local(classes, longer, b as int, name);
                }
            },
            None => {},
        }
    }
}

/// The native method of the name in a class's slots.
pub open spec fn native_of(class: SoxType<'_>, name: Seq<char>) -> Option<NativeFunction> {
    match position(class.slots.methods@, name, 0) {
        Some(i) => Some(class.slots.methods@[i].1.func),
        None => None,
    }
}

impl<'a> SoxType<'a> {
    /// The descriptor of a built-in class.
    pub fn new_static_type(
        name: &str,
        base: Option<usize>,
        methods: Vec<(String, SoxMethod)>,
        slots: SoxTypeSlot,
        attributes: Vec<(String, SoxObject<'a>)>,
    ) -> (r: Self)
        ensures
            r.base == base,
            r.methods == methods,
            r.slots == slots,
            r.attributes == attributes,
            r.name matches Some(n) && n@ == name@,
    {
        SoxType { base, methods, slots, attributes, name: Some(String::from_str(name)) }
    }

    /// The descriptor of a class that a program declares.
    pub fn new(
        name: &str,
        base: Option<usize>,
        methods: Vec<(String, SoxMethod)>,
        slots: SoxTypeSlot,
        attributes: Vec<(String, SoxObject<'a>)>,
    ) -> (r: Self)
        ensures
            r.base == base,
            r.methods == methods,
            r.slots == slots,
            r.attributes == attributes,
            r.name matches Some(n) && n@ == name@,
    {
        SoxType { base, methods, slots, attributes, name: Some(String::from_str(name)) }
    }

    /// The name, or the empty text for a class without one.
    pub open spec fn name_text(&self) -> Seq<char> {
        match self.name {
            Some(n) => n@,
            None => Seq::<char>::empty(),
        }
    }

    /// The native method of the name in the slots.
    pub fn native(&self, name: &String) -> (r: Option<NativeFunction>)
        ensures
            r == native_of(*self, name@),
    {
        match find_entry(&self.slots.methods, name) {
            Some(i) => Some(self.slots.methods[i].1.func),
            None => None,
        }
    }

    /// The method of the name that instances of the class at index `class`
    /// answer to: the class's own, else the nearest superclass's.
    pub fn find_method(classes: &Vec<SoxType<'a>>, class: usize, name: &String) -> (r: Option<
        SoxObject<'a>,
    >)
        ensures
            r == method_of(classes@, class as int, name@),
    {
        let mut cur = class;
        loop
            invariant
                method_of(classes@, class as int, name@) == method_of(classes@, cur as int, name@),
            decreases cur,
        {
            if cur >= classes.len() {
                return None;
            }
            match find_entry(&classes[cur].attributes, name) {
                Some(i) => {
                    return Some(classes[cur].attributes[i].1.clone());
                },
                None => match classes[cur].base {
                    Some(b) => {
                        if b < cur {
                            cur = b;
                        } else {
                            return None;
                        }
                    },
                    None => {
                        return None;
                    },
                },
            }
        }
    }

    /// The number of arguments that a call of the class at `class` takes.
    pub fn arity(classes: &Vec<SoxType<'a>>, class: usize) -> (r: usize)
        ensures
            r == arity_of(classes@, class as int),
    {
        match SoxType::find_method(classes, class, &String::from_str("init")) {
            Some(SoxObject::Function(f)) => f.val.arity,
            _ => 0,
        }
    }

    /// Calls a class: makes an instance without fields. Where the class has
    /// an `init` method, the method is bound to the instance and its call
    /// starts; the instance is the value of the call, whatever the method
    /// returns. The wrong number of arguments is a runtime error.
    pub fn call(fo: SoxObject<'a>, args: FuncArgs<'a>, interpreter: &mut Interpreter<'a>) -> (r:
        Action<'a>)
        requires
            old(interpreter).wf(),
        ensures
            final(interpreter).wf(),
            final(interpreter).environment.keeps_captured(&old(interpreter).environment),
            r is Continue,
            type_call_effect(
                *old(interpreter),
                old(interpreter).stack@,
                *final(interpreter),
                fo,
                args.args@,
            ),
    {
        let c = match fo {
            SoxObject::Type(c) => c,
            _ => {
                return interpreter.raise(
                    RuntimeError::new("first argument to this call method should be a type object"),
                );
            },
        };
        if c >= interpreter.classes.len() {
            return interpreter.raise(
                RuntimeError::new("first argument to this call method should be a type object"),
            );
        }
        let arity = SoxType::arity(&interpreter.classes, c);
        if args.args.len() != arity {
            return interpreter.raise(arity_error(arity, args.args.len()));
        }
        let index = interpreter.instances.len();
        interpreter.instances.push(SoxInstance::new(c));
        proof {
            assert(interpreter.instances@.drop_last() =~= old(interpreter).instances@);
        }
        let instance = SoxObject::TypeInstance(index);
        match SoxType::find_method(&interpreter.classes, c, &String::from_str("init")) {
            Some(init) => match init {
                SoxObject::Function(func) => match func.val.bind(instance.clone(), interpreter) {
                    Ok(bound) => {
                        let ghost mid = interpreter.environment;
                        interpreter.stack.push(Kont::Construct { instance });
                        let r = SoxFunction::call(bound, args, interpreter);
                        proof {
                            assert(func.val.binds(
                                instance,
                                &old(interpreter).environment,
                                &mid,
                                Ok::<SoxObject<'a>, RuntimeError>(bound),
                            ));
                        }
                        r
                    },
                    Err(e) => interpreter.raise(e),
                },
                _ => interpreter.raise(
                    RuntimeError::new("init resolved to a non function object"),
                ),
            },
            None => interpreter.deliver(instance),
        }
    }

    /// What is shown to the user.
    pub fn repr(&self) -> (r: String)
        ensures
            r@ == "<type '"@ + self.name_text() + "'>"@,
    {
        let mut s = String::from_str("<type '");
        match &self.name {
            Some(n) => {
                s.append(n.as_str());
            },
            None => {
                assert(s@ + Seq::<char>::empty() =~= s@);
            },
        }
        s.append("'>");
        s
    }
}

impl<'a> SoxInstance<'a> {
    /// An instance without fields.
    pub fn new(class: usize) -> (r: Self)
        ensures
            r.typ == class,
            r.fields@.len() == 0,
    {
        SoxInstance { typ: class, fields: Vec::new() }
    }

    /// The instance is `before` with the field set: the first field of that
    /// name has the value; where `before` has none, the field stands at the
    /// end.
    pub open spec fn assigned(self, before: Self, name: Seq<char>, value: SoxObject<'a>) -> bool {
        &&& self.typ == before.typ
        &&& match position(before.fields@, name, 0) {
            Some(i) => self.fields@ == before.fields@.update(i, (before.fields@[i].0, value)),
            None => {
                &&& self.fields@.len() == before.fields@.len() + 1
                &&& self.fields@.drop_last() == before.fields@
                &&& self.fields@.last().0@ == name
                &&& self.fields@.last().1 == value
            },
        }
    }

    /// Sets the field: the first field of that name gets the value; where
    /// there is none, the field is added at the end.
    pub fn set(&mut self, name: &String, value: SoxObject<'a>)
        ensures
            final(self).assigned(*old(self), name@, value),
    {
        match find_entry(&self.fields, name) {
            Some(i) => {
                let key = self.fields[i].0.clone();
                self.fields.set(i, (key, value));
            },
            None => {
                self.fields.push((name.clone(), value));
                assert(self.fields@.drop_last() =~= old(self).fields@);
            },
        }
    }

    /// The property of an instance: the field of that name, else the method
    /// of that name of the instance's class, bound to the instance. A
    /// runtime error where the instance has neither.
    pub fn get(inst: usize, name: &Token, interp: &mut Interpreter<'a>) -> (r: Result<
        SoxObject<'a>,
        RuntimeError,
    >)
        requires
            old(interp).wf(),
        ensures
            final(interp).wf(),
            final(interp).environment.keeps_captured(&old(interp).environment),
            final(interp).stack == old(interp).stack,
            final(interp).control == old(interp).control,
            final(interp).same_tables(old(interp)),
            final(interp).environment.active == old(interp).environment.active,
            property_read(
                *old(interp),
                inst,
                name.lexeme@,
                final(interp).environment,
                r,
            ),
    {
        if inst >= interp.instances.len() {
            return Err(RuntimeError::new("The instance is gone"));
        }
        match interp.instances[inst].field(&name.lexeme) {
            Some(v) => {
                return Ok(v);
            },
            None => {},
        }
        let class = interp.instances[inst].typ;
        match SoxType::find_method(&interp.classes, class, &name.lexeme) {
            Some(SoxObject::Function(m)) => m.val.bind(SoxObject::TypeInstance(inst), interp),
            Some(_) => {
                let mut msg = String::from_str("Found property with same name, ");
                msg.append(name.lexeme.as_str());
                msg.append(", but it is not a function");
                Err(RuntimeError { msg })
            },
            None => Err(undefined_property(&name.lexeme)),
        }
    }

    /// The value of the first field of the name.
    pub fn field(&self, name: &String) -> (r: Option<SoxObject<'a>>)
        ensures
            r == (match position(self.fields@, name@, 0) {
                Some(i) => Some(self.fields@[i].1),
                None => None,
            }),
    {
        match find_entry(&self.fields, name) {
            Some(i) => Some(self.fields[i].1.clone()),
            None => None,
        }
    }
}

} // verus!
