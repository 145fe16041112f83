use vstd::prelude::*;
use slotmap::DefaultKey;
use crate::builtins::exceptions::RuntimeError;
use crate::builtins::integer::{append_digits, digits};
use crate::builtins::method::FuncArgs;
use crate::builtins::none::SoxNone;
use crate::environment::{find_up, name_error_text, Environment};
use crate::interpreter::{Action, Control, Interpreter, Kont};
use crate::object::{SoxObject, SoxRef};
use crate::stmt::Stmt;
use crate::token::Token;

verus! {

/// A function value: a declaration and the frame that was active where the
/// declaration was executed.
#[derive(Debug)]
pub struct SoxFunction<'a> {
    pub name: String,
    pub declaration: &'a Stmt,
    pub environment_ref: DefaultKey,
    pub is_initializer: bool,
    pub arity: usize,
}

/// The message for a call with the wrong number of arguments.
pub open spec fn arity_error_text(expected: nat, got: nat) -> Seq<char> {
    "Expected "@ + digits(expected) + " arguments but got "@ + digits(got)
}

/// The error for a call with the wrong number of arguments.
pub fn arity_error(expected: usize, got: usize) -> (r: RuntimeError)
    ensures
        r.msg@ == arity_error_text(expected as nat, got as nat),
{
    let mut msg = String::from_str("Expected ");
    append_digits(&mut msg, expected as u64);
    msg.append(" arguments but got ");
    append_digits(&mut msg, got as u64);
    RuntimeError { msg }
}

/// The first `count` parameters are bound to the first `count` arguments, in
/// order, and nothing else is bound.
pub open spec fn binds_parameters<'a>(
    bindings: Seq<(String, SoxObject<'a>)>,
    params: Seq<Token>,
    args: Seq<SoxObject<'a>>,
    count: int,
) -> bool {
    &&& bindings.len() == count
    &&& count <= params.len()
    &&& count <= args.len()
    &&& forall|i: int|
        0 <= i < count ==> (#[trigger] bindings[i]).0 == params[i].lexeme && bindings[i].1
            == args[i]
}

/// A call of `f` has started.
///
/// `stack` is what was left to do before the call, `caller` the frame that
/// was active, `env` the frames. On top of the stack stand the call's
/// boundary, which takes a `return`, and the function's body, after which
/// the caller's frame is active again. A new frame is active: it stands inside the frame that the function
/// captured, and binds the parameters to the arguments, in order. No other
/// frame has changed. The boundary of an initializer holds what the
/// initializer gives back.
pub open spec fn call_started<'a>(
    stack: Seq<Kont<'a>>,
    caller: DefaultKey,
    env: Environment<'a>,
    after: Interpreter<'a>,
    f: SoxFunction<'a>,
    args: Seq<SoxObject<'a>>,
) -> bool {
    let frame = after.environment.active;
    &&& *f.declaration matches Stmt::Function { params, body, .. }
    &&& after.control == Control::Deliver(SoxObject::<'a>::Nil(SoxNone))
    &&& after.stack@.len() == stack.len() + 2
    &&& after.stack@.subrange(0, stack.len() as int) == stack
    &&& after.stack@[stack.len() as int] matches Kont::Call { restore, this }
    &&& restore == caller
    &&& after.stack@.last() == (Kont::Block {
        statements: &body,
        next: 0,
        frame,
        restore: caller,
    })
    &&& after.environment.added_only(&env, frame)
    &&& after.environment.frames()[frame].parent == Some(f.environment_ref)
    &&& !after.environment.frames()[frame].captured
    &&& binds_parameters(
        after.environment.frames()[frame].bindings@,
        params@,
        args,
        if params@.len() < args.len() {
            params@.len() as int
        } else {
            args.len() as int
        },
    )
    &&& this == receiver_of(env, f)
}

/// What an initializer gives back, whatever its body returns: what `this`
/// names in the frame that the function captured, or in the nearest frame
/// around it that has the name. Every other function has no such value.
pub open spec fn receiver_of<'a>(env: Environment<'a>, f: SoxFunction<'a>) -> Option<SoxObject<'a>> {
    if f.is_initializer {
        match find_up(env.frames(), f.environment_ref, "this"@, env.frames().dom().len()) {
            Some((holder, index)) => Some(env.frames()[holder].bindings@[index].1),
            None => None,
        }
    } else {
        None
    }
}

/// What starting a call of `fo` with the arguments does to the machine.
///
/// `env` are the frames before the call, `stack` is what was left to do.
/// What is no function, and the wrong number of arguments, are runtime
/// errors that change neither. So are a function without a declaration, an
/// initializer without `this`, and a full frame store. Else the call has
/// started.
pub open spec fn call_effect<'a>(
    env: Environment<'a>,
    stack: Seq<Kont<'a>>,
    after: Interpreter<'a>,
    fo: SoxObject<'a>,
    args: Seq<SoxObject<'a>>,
) -> bool {
    let same = after.stack@ == stack && after.environment.unchanged(&env);
    match fo {
        SoxObject::Function(f) => {
            if args.len() != f.val.arity {
                after.raised(arity_error_text(f.val.arity as nat, args.len())) && same
            } else if !(*f.val.declaration is Function) {
                after.raised("The function has no declaration"@) && same
            } else if f.val.is_initializer && receiver_of(env, *f.val) is None {
                after.raised(name_error_text("this"@)) && same
            } else if env.full() {
                after.raised("Too many frames"@) && same
            } else {
                call_started(stack, env.active, env, after, *f.val, args)
            }
        },
        _ => after.raised("first argument to this call method should be a function object"@)
            && same,
    }
}

impl<'a> SoxFunction<'a> {
    pub fn new(
        name: String,
        declaration: &'a Stmt,
        environment_ref: DefaultKey,
        arity: usize,
        is_initializer: bool,
    ) -> (r: Self)
        ensures
            r == (SoxFunction { name, declaration, environment_ref, is_initializer, arity }),
    {
        SoxFunction { name, declaration, environment_ref, is_initializer, arity }
    }

    /// What is shown to the user.
    pub fn repr(&self) -> (r: String)
        ensures
            r@ == "<Function "@ + self.name@ + ">"@,
    {
        let mut s = String::from_str("<Function ");
        s.append(self.name.as_str());
        s.append(">");
        s
    }

    /// The function is `unbound`, captured in the frame under `env`.
    pub open spec fn rebinds(self, unbound: Self, env: DefaultKey) -> bool {
        &&& self.name@ == unbound.name@
        &&& self.declaration == unbound.declaration
        &&& self.environment_ref == env
        &&& self.is_initializer == unbound.is_initializer
        &&& self.arity == unbound.arity
    }

    /// What `bind` gives and does to the frames: an error, and no change,
    /// where the value is no instance or the store is full; else the same
    /// function, captured in a new frame that stands inside the function's
    /// own, is marked as captured and holds the one binding `this`.
    pub open spec fn binds(
        self,
        instance: SoxObject<'a>,
        before: &Environment<'a>,
        after: &Environment<'a>,
        r: Result<SoxObject<'a>, RuntimeError>,
    ) -> bool {
        if !(instance is TypeInstance) {
            r is Err && r->Err_0.msg@ == "Could not bind method to instance"@ && after.unchanged(
                before,
            )
        } else if before.full() {
            r is Err && r->Err_0.msg@ == "Too many frames"@ && after.unchanged(before)
        } else {
            &&& r matches Ok(SoxObject::Function(f))
            &&& f.val.rebinds(self, f.val.environment_ref)
            &&& after.added_only(before, f.val.environment_ref)
            &&& after.frames()[f.val.environment_ref].parent == Some(self.environment_ref)
            &&& after.frames()[f.val.environment_ref].captured
            &&& after.frames()[f.val.environment_ref].bindings@.len() == 1
            &&& after.frames()[f.val.environment_ref].bindings@[0].0@ == "this"@
            &&& after.frames()[f.val.environment_ref].bindings@[0].1 == instance
        }
    }

    /// The method bound to an instance: the same function, captured in a new
    /// frame that stands inside the function's own and holds the one binding
    /// `this`. An error, and no change, where the value is no instance or
    /// the store is full.
    pub fn bind(&self, instance: SoxObject<'a>, interp: &mut Interpreter<'a>) -> (r: Result<
        SoxObject<'a>,
        RuntimeError,
    >)
        requires
            old(interp).wf(),
        ensures
            final(interp).wf(),
            final(interp).environment.keeps_captured(&old(interp).environment),
            final(interp).stack == old(interp).stack,
            final(interp).control == old(interp).control,
            final(interp).same_tables(old(interp)),
            final(interp).environment.active == old(interp).environment.active,
            self.binds(instance, &old(interp).environment, &final(interp).environment, r),
    {
        match instance {
            SoxObject::TypeInstance(_) => {},
            _ => {
                return Err(RuntimeError::new("Could not bind method to instance"));
            },
        }
        match interp.environment.new_local_env_at(self.environment_ref) {
            Some(env) => {
                let ghost mid = interp.environment;
                let _ = interp.environment.define_at(String::from_str("this"), instance, env);
                let ghost mid2 = interp.environment;
                let _ = interp.environment.capture(env);
                let f = SoxFunction {
                    name: self.name.clone(),
                    declaration: self.declaration,
                    environment_ref: env,
                    is_initializer: self.is_initializer,
                    arity: self.arity,
                };
                proof {
                    assert(mid2.frames()[env].bindings@.len() == 1);
                    let dom = old(interp).environment.frames().dom();
                    assert(interp.environment.frames().dom() =~= dom.insert(env));
                }
                Ok(SoxObject::Function(SoxRef::new(f)))
            },
            None => Err(RuntimeError::new("Too many frames")),
        }
    }

    /// Starts a call of a function value: the arguments are bound to the
    /// parameters in a new frame inside the captured one, which becomes
    /// active, and the body is what the machine runs next. The wrong number
    /// of arguments is a runtime error.
    pub fn call(fo: SoxObject<'a>, args: FuncArgs<'a>, interpreter: &mut Interpreter<'a>) -> (r:
        Action<'a>)
        requires
            old(interpreter).wf(),
        ensures
            final(interpreter).wf(),
            final(interpreter).environment.keeps_captured(&old(interpreter).environment),
            r is Continue,
            final(interpreter).same_tables(old(interpreter)),
            call_effect(
                old(interpreter).environment,
                old(interpreter).stack@,
                *final(interpreter),
                fo,
                args.args@,
            ),
    {
        let f = match &fo {
            SoxObject::Function(f) => f.clone(),
            _ => {
                return interpreter.raise(
                    RuntimeError::new(
                        "first argument to this call method should be a function object",
                    ),
                );
            },
        };
        if args.args.len() != f.val.arity {
            return interpreter.raise(arity_error(f.val.arity, args.args.len()));
        }
        match f.val.declaration {
            Stmt::Function { name: _, params, body } => {
                let previous = interpreter.environment.active;
                let this = if f.val.is_initializer {
                    interpreter.environment.active = f.val.environment_ref;
                    let found = interpreter.environment.find_and_get(&String::from_str("this"));
                    interpreter.environment.active = previous;
                    match found {
                        Ok(v) => Some(v),
                        Err(e) => {
                            return interpreter.raise(e);
                        },
                    }
                } else {
                    None
                };
                let exec_ns = match interpreter.environment.new_local_env_at(
                    f.val.environment_ref,
                ) {
                    Some(k) => k,
                    None => {
                        return interpreter.raise(RuntimeError::new("Too many frames"));
                    },
                };
                let mut j: usize = 0;
                while j < params.len() && j < args.args.len()
                    invariant
                        interpreter.wf(),
                        interpreter.environment.keeps_captured(&old(interpreter).environment),
                        interpreter.stack == old(interpreter).stack,
                        interpreter.control == old(interpreter).control,
                        interpreter.same_tables(old(interpreter)),
                        interpreter.environment.active == previous,
                        interpreter.environment.added_only(&old(interpreter).environment, exec_ns),
                        interpreter.environment.frames()[exec_ns].parent == Some(
                            f.val.environment_ref,
                        ),
                        !interpreter.environment.frames()[exec_ns].captured,
                        binds_parameters(
                            interpreter.environment.frames()[exec_ns].bindings@,
                            params@,
                            args.args@,
                            j as int,
                        ),
                    decreases params.len() - j,
                {
                    let ghost bound = interpreter.environment.frames()[exec_ns].bindings@;
                    let _ = interpreter.environment.define_at(
                        params[j].lexeme.clone(),
                        args.args[j].clone(),
                        exec_ns,
                    );
                    proof {
                        let now = interpreter.environment.frames()[exec_ns].bindings@;
                        assert forall|i: int| 0 <= i < j + 1 implies (#[trigger] now[i]).0
                            == params@[i].lexeme && now[i].1 == args.args@[i] by {
                            if i < j {
                                assert(now[i] == bound[i]);
                            }
                        }
                    }
                    j += 1;
                }
                interpreter.stack.push(Kont::Call { restore: previous, this });
                interpreter.environment.active = exec_ns;
                interpreter.stack.push(
                    Kont::Block { statements: body, next: 0, frame: exec_ns, restore: previous },
                );
                proof {
                    assert(interpreter.stack@.subrange(0, old(interpreter).stack@.len() as int)
                        =~= old(interpreter).stack@);
                }
                interpreter.deliver(SoxObject::Nil(SoxNone))
            },
            _ => interpreter.raise(RuntimeError::new("The function has no declaration")),
        }
    }

    /// Whether two function values are the same function.
    pub fn equals(&self, other: &SoxObject<'a>) -> (r: crate::builtins::bool_::SoxBool)
        ensures
            r.value == (*other matches SoxObject::Function(g) && crate::operators::same_function(
                *self,
                *g.val,
            )),
    {
        match other {
            SoxObject::Function(g) => crate::builtins::bool_::SoxBool::new(
                crate::operators::functions_equal(self, &g.val),
            ),
            _ => crate::builtins::bool_::SoxBool::new(false),
        }
    }
}

} // verus!
