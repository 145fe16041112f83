use std::collections::HashMap;
use vstd::prelude::*;
use slotmap::DefaultKey;
use crate::builtins::exceptions::{Exception, RuntimeError};
use crate::builtins::float::{FloatReply, FloatRequest, SoxFloat};
use crate::builtins::function::SoxFunction;
use crate::builtins::method::{FuncArgs, SoxMethod};
use crate::builtins::none::SoxNone;
use crate::builtins::types::{GenericMethod, SoxInstance, SoxType, SoxTypeSlot};
use crate::catalog::TypeLibrary;
use crate::environment::{EnvKey, Environment};
use crate::expr::Expr;
use crate::object::{Outcome, SoxObject, SoxRef, Value};
use crate::operators::{binary, equal_result, is_truthy, truthy, unary};
use crate::semantics::{
    after_steps, answered, block_entered, class_declared, declares, evaluated, executed,
    function_declared, holds_method, invoked, last_method, lemma_one_more_step, ran, resumed,
    settled, stepped, super_read, unwound,
};
use crate::soundness::{lemma_sound_same_heap, lemma_sound_step, sound};
use crate::stmt::Stmt;
use crate::token::{Literal, Token};
use crate::token_type::TokenType;

verus! {

broadcast use vstd::std_specs::hash::group_hash_axioms;

/// What the machine does at its next step.
#[derive(Debug)]
pub enum Control<'a> {
    /// Nothing: no program is loaded, or the program has ended.
    Idle,
    /// Execute a statement.
    Execute(&'a Stmt),
    /// Evaluate an expression.
    Evaluate(&'a Expr),
    /// Hand a value to the continuation on top of the stack.
    Deliver(SoxObject<'a>),
    /// Leave continuations until one takes the exception.
    Unwind(Exception<'a>),
    /// Take the host's answer to a request.
    Await(Expect),
}

/// The answer that the machine waits for.
#[derive(Debug, Clone, Copy, PartialEq, Eq, Structural)]
pub enum Expect {
    /// A fractional number, which is the value of the expression.
    Number,
    /// A boolean, which is the value of the expression.
    Truth,
    /// A text, which is printed.
    Text,
}

/// What is left to do when the current statement or expression is done.
#[derive(Debug)]
#[allow(inconsistent_fields)]
pub enum Kont<'a> {
    /// The statements of the program, from `next` on.
    Program { statements: &'a Vec<Stmt>, next: usize },
    /// The statements of a block or of a function body, from `next` on; then
    /// the block's frame, `frame`, is left for the frame that was active
    /// before the block, `restore`.
    Block { statements: &'a Vec<Stmt>, next: usize, frame: DefaultKey, restore: DefaultKey },
    /// The end of a call: the caller's frame becomes active again. A `return`
    /// stops here. An initializer gives `this`, whatever its body returns.
    Call { restore: DefaultKey, this: Option<SoxObject<'a>> },
    /// The end of a call of a class: the new instance is the value.
    Construct { instance: SoxObject<'a> },
    /// The value is dropped, `None` goes on.
    Discard,
    /// The value is printed.
    Print,
    /// The value is bound to the name in the active frame.
    Define { name: &'a Token },
    /// The value decides which branch runs.
    Branch { then_branch: &'a Stmt, else_branch: Option<&'a Stmt> },
    /// The value decides whether the body runs once more.
    LoopTest { condition: &'a Expr, body: &'a Stmt },
    /// The body has run: the condition is evaluated again.
    LoopBody { condition: &'a Expr, body: &'a Stmt },
    /// The value is returned from the function.
    Return,
    /// The value is the superclass of the class declared.
    Superclass { declaration: &'a Stmt },
    /// The value is assigned to the variable.
    Assign { name: &'a Token },
    /// The value is the left operand; the right one comes next.
    BinaryRight { operator: &'a Token, right: &'a Expr },
    /// The value is the right operand.
    BinaryApply { operator: &'a Token, left: SoxObject<'a> },
    /// The negated truthiness of the value goes on.
    Negate,
    /// The value is the left operand of `and` or `or`.
    Logical { operator: &'a Token, right: &'a Expr },
    /// The value is the operand of a unary operator.
    Unary { operator: &'a Token },
    /// The value is what is called; the arguments come next.
    Callee { arguments: &'a Vec<Expr> },
    /// The value is the next argument of the call.
    Arguments { callee: SoxObject<'a>, arguments: &'a Vec<Expr>, values: Vec<SoxObject<'a>> },
    /// The value is the object whose property is read.
    GetProperty { name: &'a Token },
    /// The value is the object whose field is set; the field's value comes
    /// next.
    SetObject { name: &'a Token, value: &'a Expr },
    /// The value is the field's new value.
    SetValue { instance: usize, name: &'a Token },
}

/// What a step asks of the host.
#[derive(Debug)]
pub enum Action<'a> {
    /// Take the next step.
    Continue,
    /// Write the line to standard output, then take the next step.
    Print(String),
    /// Compute, and hand the answer to the next step.
    Float(FloatRequest),
    /// The program has run to its end. The value is that of its last
    /// statement.
    Finished(SoxObject<'a>),
    /// A runtime error has ended the program.
    Failed(RuntimeError),
}

/// What an `Action` says, with texts as sequences of characters.
pub enum ActionView<'a> {
    Continue,
    Print(Seq<char>),
    Float(crate::builtins::float::FloatRequestView),
    Finished(Value<'a>),
    Failed(Seq<char>),
}

impl<'a> View for Action<'a> {
    type V = ActionView<'a>;

    open spec fn view(&self) -> ActionView<'a> {
        match *self {
            Action::Continue => ActionView::Continue,
            Action::Print(line) => ActionView::Print(line@),
            Action::Float(q) => ActionView::Float(q@),
            Action::Finished(v) => ActionView::Finished(v@),
            Action::Failed(e) => ActionView::Failed(e.msg@),
        }
    }
}

/// How a value is shown: as a text, or as a fractional number, which the host
/// renders.
#[derive(Debug)]
pub enum Rendered {
    Text(String),
    Float(SoxFloat),
}

/// The evaluator: a machine that runs a program step by step.
///
/// The host loads a program with `interpret` and calls `step` until the
/// action is `Finished` or `Failed`. Between two steps it does what the
/// action says: it prints a line, or it computes on fractional numbers and
/// hands the answer to the next step.
///
/// What is left to do stands on a stack of continuations, so that a program
/// may nest and recurse as deep as memory allows. Operands and arguments are
/// evaluated from left to right. A `return` and a runtime error leave the
/// continuations one by one, and with each block its frame.
///
/// A frame that no function value has captured is dropped when it is left.
/// A captured frame, classes and instances stay for as long as the machine
/// does.
pub struct Interpreter<'a> {
    pub environment: Environment<'a>,
    pub types: TypeLibrary<'a>,
    pub none: SoxNone,
    /// Where the resolver placed each variable reference: by the number of
    /// the reference's token, how many frames to climb and the index there.
    pub _locals: HashMap<u32, (usize, usize)>,
    /// The classes that the program has declared.
    pub classes: Vec<SoxType<'a>>,
    /// The instances that the program has made.
    pub instances: Vec<SoxInstance<'a>>,
    pub stack: Vec<Kont<'a>>,
    pub control: Control<'a>,
}

/// A class that a program declared has no call slot and no natives.
pub open spec fn plain_class(class: SoxType<'_>) -> bool {
    class.slots.call is None && class.slots.methods@.len() == 0
}

impl<'a> Interpreter<'a> {
    /// The built-in classes are as they were made, the declared classes are
    /// plain, and the frames are finitely many.
    pub open spec fn wf(&self) -> bool {
        &&& self.types.wf()
        &&& self.environment.finite()
        &&& forall|c: int| 0 <= c < self.classes@.len() ==> plain_class(#[trigger] self.classes@[c])
    }

    /// A machine without a program, with an empty global frame.
    pub fn new() -> (r: Self)
        ensures
            r.wf(),
            r.control is Idle,
            r.stack@.len() == 0,
            r.classes@.len() == 0,
            r.instances@.len() == 0,
            r._locals@ == Map::<u32, (usize, usize)>::empty(),
            r.environment.active == r.environment.global,
            r.environment.frames().dom() == set![r.environment.global],
            sound(r),
    {
        Interpreter {
            environment: Environment::new(),
            types: TypeLibrary::init(),
            none: SoxNone,
            _locals: HashMap::new(),
            classes: Vec::new(),
            instances: Vec::new(),
            stack: Vec::new(),
            control: Control::Idle,
        }
    }

    pub fn new_string(&self, s: String) -> (r: SoxObject<'a>)
        ensures
            r@ == Value::<'a>::Str(s@),
    {
        SoxObject::from_string(s)
    }

    pub fn new_int(&self, i: i64) -> (r: SoxObject<'a>)
        ensures
            r@ == Value::<'a>::Int(i),
    {
        SoxObject::from_int(i)
    }

    /// A fractional number, from the bits of its IEEE 754 binary64 form.
    pub fn new_float(&self, bits: u64) -> (r: SoxObject<'a>)
        ensures
            r@ == Value::<'a>::Float(bits),
    {
        SoxObject::from_bits(bits)
    }

    pub fn new_bool(&self, b: bool) -> (r: SoxObject<'a>)
        ensures
            r@ == Value::<'a>::Boolean(b),
    {
        SoxObject::from_bool(b)
    }

    pub fn new_none(&self) -> (r: SoxObject<'a>)
        ensures
            r@ == Value::<'a>::Nil,
    {
        SoxObject::none()
    }

    /// A runtime error as a value.
    pub fn runtime_error(msg: String) -> (r: SoxObject<'a>)
        ensures
            r@ == Value::<'a>::Exception(Exception::Failure(RuntimeError { msg })),
    {
        SoxObject::Exception(SoxRef::new(Exception::Failure(RuntimeError { msg })))
    }

    /// The class descriptor of a value: a built-in class's, or, for an
    /// instance, that of its class. `None` for an instance that the machine
    /// does not hold.
    pub open spec fn class_of(&self, v: SoxObject<'a>) -> Option<SoxType<'a>> {
        match v {
            SoxObject::Int(_) => Some(self.types.int_type),
            SoxObject::String(_) => Some(self.types.str_type),
            SoxObject::Float(_) => Some(self.types.float_type),
            SoxObject::Boolean(_) => Some(self.types.bool_type),
            SoxObject::Function(_) => Some(self.types.func_type),
            SoxObject::Exception(_) => Some(self.types.exception_type),
            SoxObject::Nil(_) => Some(self.types.none_type),
            SoxObject::Type(_) => Some(self.types.type_type),
            SoxObject::TypeInstance(i) => if i < self.instances@.len() && self.instances@[i as int].typ
                < self.classes@.len() {
                Some(self.classes@[self.instances@[i as int].typ as int])
            } else {
                None
            },
        }
    }

    /// Where the resolver placed the reference, if it did.
    pub open spec fn placement(&self, name: Token) -> Option<(usize, usize)> {
        if self._locals@.contains_key(name.id) {
            Some(self._locals@[name.id])
        } else {
            None
        }
    }

    /// What looking a variable up gives: where the resolver placed the
    /// reference, what the frame gives that lies exactly as many parent links
    /// from the active frame as the resolver found, at the index it found;
    /// else what the global frame gives for the name.
    pub open spec fn looks_up(&self, name: Token, r: Result<SoxObject<'a>, RuntimeError>) -> bool {
        match self.placement(name) {
            Some((depth, index)) => self.environment.reads((name.lexeme, depth, index), r),
            None => self.environment.reads_global(name.lexeme@, r),
        }
    }

    /// What assigning to a variable does: the binding that `looks_up` reads
    /// gets the value.
    pub open spec fn assigns(
        &self,
        before: &Self,
        name: Token,
        value: SoxObject<'a>,
        r: Result<(), RuntimeError>,
    ) -> bool {
        match before.placement(name) {
            Some((depth, index)) => self.environment.writes(
                &before.environment,
                (name.lexeme, depth, index),
                value,
                r,
            ),
            None => self.environment.writes_global(&before.environment, name.lexeme@, value, r),
        }
    }

    /// The value of a variable: by the resolver's coordinates where it placed
    /// the reference, else by name in the global frame.
    pub fn lookup_variable(&self, name: &Token) -> (r: Result<SoxObject<'a>, RuntimeError>)
        ensures
            self.looks_up(*name, r),
    {
        match self._locals.get(&name.id) {
            Some(place) => {
                let key: EnvKey = (name.lexeme.clone(), place.0, place.1);
                self.environment.get(&key)
            },
            None => self.environment.get_from_global_scope(&name.lexeme),
        }
    }

    /// The class descriptor of a value.
    pub fn sox_type<'b>(&'b self, v: &SoxObject<'a>) -> (r: Option<&'b SoxType<'a>>)
        ensures
            match r {
                Some(t) => self.class_of(*v) == Some(*t),
                None => self.class_of(*v) is None,
            },
    {
        match v {
            SoxObject::Int(_) => Some(&self.types.int_type),
            SoxObject::String(_) => Some(&self.types.str_type),
            SoxObject::Float(_) => Some(&self.types.float_type),
            SoxObject::Boolean(_) => Some(&self.types.bool_type),
            SoxObject::Function(_) => Some(&self.types.func_type),
            SoxObject::Exception(_) => Some(&self.types.exception_type),
            SoxObject::Nil(_) => Some(&self.types.none_type),
            SoxObject::Type(_) => Some(&self.types.type_type),
            SoxObject::TypeInstance(i) => {
                if *i < self.instances.len() {
                    let c = self.instances[*i].typ;
                    if c < self.classes.len() {
                        Some(&self.classes[c])
                    } else {
                        None
                    }
                } else {
                    None
                }
            },
        }
    }

    /// Whether a value counts as true: what the `bool` method of its class
    /// says, and true for a class without one.
    pub fn try_into_rust_bool(&self, v: &SoxObject<'a>) -> (r: bool)
        requires
            self.wf(),
        ensures
            r == truthy(v@),
    {
        let name = String::from_str("bool");
        match self.sox_type(v) {
            Some(t) => match t.native(&name) {
                Some(func) => {
                    let mut args: Vec<SoxObject<'a>> = Vec::new();
                    args.push(v.clone());
                    match SoxMethod::new(func).call(&FuncArgs::new(args)) {
                        Outcome::Value(b) => is_truthy(&b),
                        _ => false,
                    }
                },
                None => true,
            },
            None => true,
        }
    }

    /// `left == right`: what the `equals` method of the left operand's class
    /// says, and false for a class without one.
    pub fn equality(&self, left: &SoxObject<'a>, right: &SoxObject<'a>) -> (r: Outcome<'a>)
        requires
            self.wf(),
        ensures
            r@ == equal_result(left@, right@),
    {
        let name = String::from_str("equals");
        match self.sox_type(left) {
            Some(t) => match t.native(&name) {
                Some(func) => {
                    let mut args: Vec<SoxObject<'a>> = Vec::new();
                    args.push(left.clone());
                    args.push(right.clone());
                    SoxMethod::new(func).call(&FuncArgs::new(args))
                },
                None => Outcome::Value(SoxObject::from_bool(false)),
            },
            None => Outcome::Value(SoxObject::from_bool(false)),
        }
    }

    /// The classes, the instances, the resolver's table and the built-in
    /// classes are as in `before`.
    pub open spec fn same_tables(&self, before: &Self) -> bool {
        &&& self.types == before.types
        &&& self.classes == before.classes
        &&& self.instances == before.instances
        &&& self._locals == before._locals
    }

    /// All but the control is as in `before`.
    pub open spec fn same_but_control(&self, before: &Self) -> bool {
        &&& self.same_tables(before)
        &&& self.stack == before.stack
        &&& self.environment == before.environment
    }

    /// A runtime error with the message is being unwound.
    pub open spec fn raised(&self, msg: Seq<char>) -> bool {
        self.control matches Control::Unwind(Exception::Failure(e)) && e.msg@ == msg
    }

    /// Makes a runtime error the exception that is unwound.
    pub fn raise(&mut self, error: RuntimeError) -> (r: Action<'a>)
        requires
            old(self).wf(),
        ensures
            final(self).wf(),
            final(self).environment.keeps_captured(&old(self).environment),
            r is Continue,
            final(self).control == Control::Unwind(Exception::Failure(error)),
            final(self).same_but_control(old(self)),
    {
        self.control = Control::Unwind(Exception::Failure(error));
        Action::Continue
    }

    /// Hands a value to the continuation on top of the stack.
    pub fn deliver(&mut self, value: SoxObject<'a>) -> (r: Action<'a>)
        requires
            old(self).wf(),
        ensures
            final(self).wf(),
            final(self).environment.keeps_captured(&old(self).environment),
            r is Continue,
            final(self).control == Control::Deliver(value),
            final(self).same_but_control(old(self)),
    {
        self.control = Control::Deliver(value);
        Action::Continue
    }

    /// Goes on as an operation ended: with its value, with its error, or with
    /// a request to the host, whose answer the next step takes.
    pub fn settle(&mut self, outcome: Outcome<'a>) -> (r: Action<'a>)
        requires
            old(self).wf(),
        ensures
            final(self).wf(),
            final(self).environment.keeps_captured(&old(self).environment),
            final(self).same_but_control(old(self)),
            settled(outcome@, final(self).control, r),
            match outcome {
                Outcome::Value(v) => r is Continue && final(self).control == Control::Deliver(v),
                Outcome::Failure(e) => r is Continue && final(self).control == Control::Unwind(
                    Exception::Failure(e),
                ),
                Outcome::Float(q) => r == Action::Float(q) && final(self).control
                    == Control::<'a>::Await(
                    if q is Compare {
                        Expect::Truth
                    } else if q is Render {
                        Expect::Text
                    } else {
                        Expect::Number
                    },
                ),
            },
    {
        match outcome {
            Outcome::Value(v) => self.deliver(v),
            Outcome::Failure(e) => self.raise(e),
            Outcome::Float(q) => {
                let expect = match &q {
                    FloatRequest::Compare { .. } => Expect::Truth,
                    FloatRequest::Render(_) => Expect::Text,
                    _ => Expect::Number,
                };
                self.control = Control::Await(expect);
                Action::Float(q)
            },
        }
    }

    /// Loads a program: its statements run, in order, in the global frame.
    /// What was left of an earlier program is dropped.
    pub fn interpret(&mut self, statements: &'a Vec<Stmt>)
        requires
            old(self).wf(),
        ensures
            final(self).wf(),
            final(self).environment.keeps_captured(&old(self).environment),
            final(self).stack@ == seq![Kont::Program { statements, next: 0 }],
            final(self).control == Control::Deliver(SoxObject::<'a>::Nil(SoxNone)),
            final(self).environment.active == old(self).environment.global,
            final(self).environment.global == old(self).environment.global,
            final(self).environment.frames() == old(self).environment.frames(),
            final(self).same_tables(old(self)),
            sound(*old(self)) ==> sound(*final(self)),
    {
        self.stack = Vec::new();
        self.stack.push(Kont::Program { statements, next: 0 });
        self.environment.active = self.environment.global;
        self.control = Control::Deliver(SoxObject::Nil(SoxNone));
        proof {
            if sound(*old(self)) {
                lemma_sound_same_heap(*old(self), *self, 0);
            }
        }
    }

    /// Enters a block: a new frame inside the active one becomes active, or
    /// the frame given does; then the statements run, and the frame is left
    /// for the one that was active before.
    pub fn execute_block(&mut self, statements: &'a Vec<Stmt>, ns_ref: Option<DefaultKey>) -> (r:
        Action<'a>)
        requires
            old(self).wf(),
        ensures
            final(self).wf(),
            final(self).environment.keeps_captured(&old(self).environment),
            r is Continue,
            block_entered(*old(self), old(self).stack@, statements, ns_ref, *final(self)),
    {
        let restore = self.environment.active;
        let frame = match ns_ref {
            Some(k) => {
                self.environment.active = k;
                k
            },
            None => match self.environment.new_local_env() {
                Some(k) => k,
                None => {
                    return self.raise(RuntimeError::new("Too many frames"));
                },
            },
        };
        self.stack.push(Kont::Block { statements, next: 0, frame, restore });
        self.deliver(SoxObject::Nil(SoxNone))
    }

    /// How a value is shown.
    pub fn repr(&self, v: &SoxObject<'a>) -> (r: Rendered)
        ensures
            match *v {
                SoxObject::Float(x) => r == Rendered::Float(x),
                _ => r matches Rendered::Text(s) && s@ == self.text_of(*v),
            },
    {
        match v {
            SoxObject::Int(i) => Rendered::Text(i.repr()),
            SoxObject::String(s) => Rendered::Text(s.val.value.clone()),
            SoxObject::Float(x) => Rendered::Float(*x),
            SoxObject::Boolean(b) => Rendered::Text(
                if b.value {
                    String::from_str("true")
                } else {
                    String::from_str("false")
                },
            ),
            SoxObject::Function(f) => Rendered::Text(f.val.repr()),
            SoxObject::Exception(e) => Rendered::Text(e.val.repr()),
            SoxObject::Nil(_) => Rendered::Text(String::from_str("None")),
            SoxObject::Type(c) => {
                if *c < self.classes.len() {
                    Rendered::Text(self.classes[*c].repr())
                } else {
                    Rendered::Text(String::from_str("<type>"))
                }
            },
            SoxObject::TypeInstance(_) => {
                let mut s = String::from_str("<");
                match self.sox_type(v) {
                    Some(t) => match &t.name {
                        Some(n) => {
                            s.append(n.as_str());
                        },
                        None => {
                            s.append("Unknown type");
                        },
                    },
                    None => {
                        s.append("Unknown type");
                    },
                }
                s.append(" instance>");
                Rendered::Text(s)
            },
        }
    }

    /// The text that shows a value which is not a fractional number.
    pub open spec fn text_of(&self, v: SoxObject<'a>) -> Seq<char> {
        match v {
            SoxObject::Int(i) => crate::builtins::integer::decimal(i.value as int),
            SoxObject::String(s) => s.val.value@,
            SoxObject::Float(_) => Seq::<char>::empty(),
            SoxObject::Boolean(b) => if b.value {
                "true"@
            } else {
                "false"@
            },
            SoxObject::Function(f) => "<Function "@ + f.val.name@ + ">"@,
            SoxObject::Exception(e) => match *e.val {
                Exception::Failure(x) => x.msg@,
                Exception::Return(_) => "Return"@,
            },
            SoxObject::Nil(_) => "None"@,
            SoxObject::Type(c) => if c < self.classes@.len() {
                "<type '"@ + self.classes@[c as int].name_text() + "'>"@
            } else {
                "<type>"@
            },
            SoxObject::TypeInstance(_) => "<"@ + (match self.class_of(v) {
                Some(t) => match t.name {
                    Some(n) => n@,
                    None => "Unknown type"@,
                },
                None => "Unknown type"@,
            }) + " instance>"@,
        }
    }

    /// Assigns to a variable: by the resolver's coordinates where it placed
    /// the reference, else by name in the global frame.
    pub fn assign_variable(&mut self, name: &Token, value: SoxObject<'a>) -> (r: Result<
        (),
        RuntimeError,
    >)
        requires
            old(self).wf(),
        ensures
            final(self).wf(),
            final(self).environment.keeps_captured(&old(self).environment),
            final(self).same_tables(old(self)),
            final(self).stack == old(self).stack,
            final(self).control == old(self).control,
            final(self).environment.active == old(self).environment.active,
            final(self).environment.global == old(self).environment.global,
            r is Err ==> final(self).environment.unchanged(&old(self).environment),
            final(self).assigns(old(self), *name, value, r),
    {
        match self._locals.get(&name.id) {
            Some(place) => {
                let key: EnvKey = (name.lexeme.clone(), place.0, place.1);
                self.environment.assign(&key, value)
            },
            None => self.environment.assign_in_global(&name.lexeme, value),
        }
    }

    /// Executes a function declaration: the function value captures the
    /// active frame and is bound to the function's name there.
    pub fn visit_function_stmt(&mut self, stmt: &'a Stmt) -> (r: Action<'a>)
        requires
            old(self).wf(),
        ensures
            final(self).wf(),
            final(self).environment.keeps_captured(&old(self).environment),
            final(self).stack == old(self).stack,
            r is Continue,
            function_declared(*old(self), stmt, *final(self)),
    {
        match stmt {
            Stmt::Function { name, params, body: _ } => {
                let env = self.environment.active;
                let fo = SoxFunction::new(name.lexeme.clone(), stmt, env, params.len(), false);
                let _ = self.environment.capture(env);
                let _ = self.environment.define(
                    name.lexeme.clone(),
                    SoxObject::Function(SoxRef::new(fo)),
                );
                proof {
                    if old(self).environment.frames().dom().contains(env) {
                        let was = old(self).environment.frames()[env].bindings@;
                        assert(self.environment.frames()[env].bindings@.drop_last() =~= was);
                    } else {
                        assert(self.environment.frames() =~= old(self).environment.frames());
                    }
                }
                self.deliver(SoxObject::Nil(SoxNone))
            },
            _ => self.raise(
                RuntimeError::new(
                    "Evaluation failed -  Calling a visit_function_stmt on non function node.",
                ),
            ),
        }
    }

    /// Declares a class, whose superclass, if it has one, has been evaluated.
    ///
    /// The class's name is bound to `None` in the active frame. With a
    /// superclass, a new frame with the one binding `super` is entered. Each
    /// method becomes a function value that captures the active frame; the
    /// one called `init` is the initializer. The class descriptor joins the
    /// class table, the frame entered is left, and the descriptor replaces
    /// `None` under the class's name.
    pub fn visit_class_stmt(&mut self, stmt: &'a Stmt, superclass: Option<usize>) -> (r: Action<'a>)
        requires
            old(self).wf(),
        ensures
            final(self).wf(),
            final(self).environment.keeps_captured(&old(self).environment),
            final(self).stack == old(self).stack,
            r is Continue,
            class_declared(*old(self), stmt, superclass, *final(self)),
    {
        let (name, methods) = match stmt {
            Stmt::Class { name, superclass: _, methods } => (name, methods),
            _ => {
                return self.raise(
                    RuntimeError::new("Calling a visit_class_stmt on non class type."),
                );
            },
        };
        let previous = self.environment.active;
        if !self.environment.define(name.lexeme.clone(), SoxObject::Nil(SoxNone)) {
            return self.raise(RuntimeError::new("The active frame is gone"));
        }
        let ghost e0 = old(self).environment;
        let ghost e1 = self.environment;
        let ghost named = e1.frames()[previous].bindings@;
        proof {
            crate::table::lemma_position_push(
                e0.frames()[previous].bindings@,
                (name.lexeme, SoxObject::Nil(SoxNone)),
                name.lexeme@,
                0,
            );
            crate::table::lemma_position(named, name.lexeme@, 0);
        }
        match superclass {
            Some(sc) => {
                match self.environment.new_local_env() {
                    Some(_) => {},
                    None => {
                        return self.raise(RuntimeError::new("Too many frames"));
                    },
                }
                let _ = self.environment.define(String::from_str("super"), SoxObject::Type(sc));
            },
            None => {},
        }
        let env = self.environment.active;
        let ghost e3 = self.environment;
        let mut attributes: Vec<(String, SoxObject<'a>)> = Vec::new();
        let init = String::from_str("init");
        let mut i: usize = 0;
        while i < methods.len()
            invariant
                i <= methods.len(),
                init@ == "init"@,
                declares(attributes@, methods@, env, i as int),
                forall|j: int|
                    0 <= j < attributes@.len() ==> (#[trigger] attributes@[j]).1 is Function
                        && attributes@[j].1->Function_0.val.environment_ref == env,
            decreases methods.len() - i,
        {
            let ghost sofar = attributes@;
            match &methods[i] {
                Stmt::Function { name: method_name, params, body: _ } => {
                    let func = SoxFunction {
                        name: method_name.lexeme.clone(),
                        declaration: &methods[i],
                        environment_ref: env,
                        is_initializer: method_name.lexeme == init,
                        arity: params.len(),
                    };
                    let value = SoxObject::Function(SoxRef::new(func));
                    crate::table::set_entry(&mut attributes, method_name.lexeme.clone(), value);
                    proof {
                        assert forall|other: Seq<char>|
                            true implies holds_method(
                            #[trigger] crate::table::lookup(attributes@, other),
                            methods@,
                            last_method(methods@, other, i + 1),
                            env,
                        ) by {
                            if other != method_name.lexeme@ {
                                assert(crate::table::lookup(attributes@, other)
                                    == crate::table::lookup(sofar, other));
                            }
                        }
                        crate::table::lemma_position(sofar, method_name.lexeme@, 0);
                    }
                },
                _ => {},
            }
            i += 1;
        }
        if attributes.len() > 0 {
            let _ = self.environment.capture(env);
        }
        let ghost e4 = self.environment;
        let class = SoxType::new(
            name.lexeme.as_str(),
            superclass,
            Vec::new(),
            SoxTypeSlot { call: None, methods: Vec::new() },
            attributes,
        );
        let index = self.classes.len();
        match superclass {
            Some(_) => {
                let _ = self.environment.pop();
            },
            None => {},
        }
        self.environment.active = previous;
        let ghost e5 = self.environment;
        proof {
            assert(e5.frames().dom().contains(previous));
            assert(e5.frames()[previous].bindings@ == named);
            vstd::set::axiom_set_contains_len(e5.frames().dom(), previous);
            assert(e5.frames().dom().len() >= 1);
        }
        match self.environment.find_and_assign(&name.lexeme, SoxObject::Type(index)) {
            Ok(_) => {
                self.classes.push(class);
                proof {
                    assert(self.classes@.drop_last() =~= old(self).classes@);
                    assert forall|c: int| 0 <= c < self.classes@.len() implies plain_class(
                        #[trigger] self.classes@[c],
                    ) by {
                        if c < old(self).classes@.len() {
                            assert(self.classes@[c] == old(self).classes@[c]);
                        }
                    }
                    if superclass is Some && class.attributes@.len() > 0 {
                        assert(self.environment.frames().dom() =~= e0.frames().dom().insert(env));
                    } else {
                        assert(self.environment.frames().dom() =~= e0.frames().dom());
                    }
                }
                self.deliver(SoxObject::Nil(SoxNone))
            },
            Err(e) => self.raise(e),
        }
    }

    /// Starts a call: what the call slot of the callee's class says, and a
    /// runtime error for a class without one.
    pub fn invoke(&mut self, callee: SoxObject<'a>, args: Vec<SoxObject<'a>>) -> (r: Action<'a>)
        requires
            old(self).wf(),
        ensures
            final(self).wf(),
            final(self).environment.keeps_captured(&old(self).environment),
            r is Continue,
            invoked(*old(self), old(self).stack@, callee, args@, *final(self)),
    {
        let slot = match self.sox_type(&callee) {
            Some(t) => t.slots.call,
            None => None,
        };
        match slot {
            Some(GenericMethod::FunctionCall) => SoxFunction::call(
                callee,
                FuncArgs::new(args),
                self,
            ),
            Some(GenericMethod::TypeCall) => SoxType::call(callee, FuncArgs::new(args), self),
            None => {
                let mut msg = String::new();
                match self.sox_type(&callee) {
                    Some(t) => match &t.name {
                        Some(n) => {
                            msg.append(n.as_str());
                        },
                        None => {},
                    },
                    None => {},
                }
                msg.append(" object is not callable");
                proof {
                    assert(Seq::<char>::empty() + " object is not callable"@
                        =~= " object is not callable"@);
                }
                self.raise(RuntimeError { msg })
            },
        }
    }

    /// Evaluates `super.method`: the class under `super`, found by the
    /// resolver's coordinates for the keyword, gives the method; the instance
    /// under `this`, which stands one frame nearer at index zero, is what the
    /// method is bound to.
    pub fn visit_super_expr(&mut self, expr: &'a Expr) -> (r: Action<'a>)
        requires
            old(self).wf(),
        ensures
            final(self).wf(),
            final(self).environment.keeps_captured(&old(self).environment),
            final(self).stack == old(self).stack,
            r is Continue,
            super_read(*old(self), expr, *final(self)),
    {
        let (keyword, method) = match expr {
            Expr::Super { keyword, method } => (keyword, method),
            _ => {
                return self.raise(RuntimeError::new("Calling visit_super_expr on none super expr"));
            },
        };
        let place = match self._locals.get(&keyword.id) {
            Some(p) => (p.0, p.1),
            None => {
                return self.raise(RuntimeError::new("Unable to resolve super"));
            },
        };
        if place.0 == 0 {
            return self.raise(RuntimeError::new("Unable to resolve instance - this"));
        }
        let key: EnvKey = (String::from_str("super"), place.0, place.1);
        let key2: EnvKey = (String::from_str("this"), place.0 - 1, 0);
        let super_type = match self.environment.get(&key) {
            Ok(v) => v,
            Err(e) => {
                return self.raise(e);
            },
        };
        let instance = match self.environment.get(&key2) {
            Ok(v) => v,
            Err(e) => {
                return self.raise(e);
            },
        };
        match super_type {
            SoxObject::Type(c) => match SoxType::find_method(&self.classes, c, &method.lexeme) {
                Some(SoxObject::Function(func)) => match func.val.bind(instance, self) {
                    Ok(bound) => self.deliver(bound),
                    Err(e) => self.raise(e),
                },
                _ => self.raise(crate::builtins::types::undefined_property(&method.lexeme)),
            },
            _ => self.raise(RuntimeError::new("Unable to resolve instance - this")),
        }
    }

    /// The first step of a statement.
    pub fn execute(&mut self, stmt: &'a Stmt) -> (r: Action<'a>)
        requires
            old(self).wf(),
        ensures
            final(self).wf(),
            final(self).environment.keeps_captured(&old(self).environment),
            r is Continue,
            executed(*old(self), stmt, *final(self)),
    {
        match stmt {
            Stmt::Expression(e) => {
                self.control = Control::Evaluate(e);
                Action::Continue
            },
            Stmt::Print(e) => {
                self.stack.push(Kont::Print);
                self.control = Control::Evaluate(e);
                Action::Continue
            },
            Stmt::Var { name, initializer } => match initializer {
                Some(e) => {
                    self.stack.push(Kont::Define { name });
                    self.control = Control::Evaluate(e);
                    Action::Continue
                },
                None => {
                    let _ = self.environment.define(name.lexeme.clone(), SoxObject::Nil(SoxNone));
                    self.deliver(SoxObject::Nil(SoxNone))
                },
            },
            Stmt::Block(statements) => self.execute_block(statements, None),
            Stmt::If { condition, then_branch, else_branch } => {
                let other: Option<&'a Stmt> = match &**else_branch {
                    Some(s) => Some(s),
                    None => None,
                };
                self.stack.push(Kont::Branch { then_branch: &**then_branch, else_branch: other });
                self.control = Control::Evaluate(condition);
                Action::Continue
            },
            Stmt::While { condition, body } => {
                self.stack.push(Kont::LoopTest { condition, body: &**body });
                self.control = Control::Evaluate(condition);
                Action::Continue
            },
            Stmt::Function { .. } => self.visit_function_stmt(stmt),
            Stmt::Return { keyword: _, value } => match value {
                Some(e) => {
                    self.stack.push(Kont::Return);
                    self.control = Control::Evaluate(e);
                    Action::Continue
                },
                None => {
                    self.control = Control::Unwind(Exception::Return(SoxObject::Nil(SoxNone)));
                    Action::Continue
                },
            },
            Stmt::Class { name: _, superclass, methods: _ } => match superclass {
                Some(sc) => {
                    self.stack.push(Kont::Superclass { declaration: stmt });
                    self.control = Control::Evaluate(sc);
                    Action::Continue
                },
                None => self.visit_class_stmt(stmt, None),
            },
        }
    }

    /// The first step of an expression.
    pub fn evaluate(&mut self, expr: &'a Expr) -> (r: Action<'a>)
        requires
            old(self).wf(),
        ensures
            final(self).wf(),
            final(self).environment.keeps_captured(&old(self).environment),
            evaluated(*old(self), expr, *final(self), r),
    {
        match expr {
            Expr::Literal { value } => match value {
                Literal::String(s) => self.deliver(SoxObject::from_string(s.clone())),
                Literal::Integer(i) => self.deliver(SoxObject::from_int(*i)),
                Literal::Float(text) => self.settle(
                    Outcome::Float(FloatRequest::Parse(text.0.clone())),
                ),
                Literal::Boolean(b) => self.deliver(SoxObject::from_bool(*b)),
                Literal::Nil => self.deliver(SoxObject::none()),
            },
            Expr::Variable { name } => match self.lookup_variable(name) {
                Ok(v) => self.deliver(v),
                Err(e) => self.raise(e),
            },
            Expr::This { keyword } => match self.lookup_variable(keyword) {
                Ok(v) => self.deliver(v),
                Err(e) => self.raise(e),
            },
            Expr::Assign { name, value } => {
                self.stack.push(Kont::Assign { name });
                self.control = Control::Evaluate(&**value);
                Action::Continue
            },
            Expr::Grouping { expr: inner } => {
                self.control = Control::Evaluate(&**inner);
                Action::Continue
            },
            Expr::Unary { operator, right } => {
                self.stack.push(Kont::Unary { operator });
                self.control = Control::Evaluate(&**right);
                Action::Continue
            },
            Expr::Binary { left, operator, right } => {
                self.stack.push(Kont::BinaryRight { operator, right: &**right });
                self.control = Control::Evaluate(&**left);
                Action::Continue
            },
            Expr::Logical { left, operator, right } => {
                self.stack.push(Kont::Logical { operator, right: &**right });
                self.control = Control::Evaluate(&**left);
                Action::Continue
            },
            Expr::Call { callee, paren: _, arguments } => {
                self.stack.push(Kont::Callee { arguments });
                self.control = Control::Evaluate(&**callee);
                Action::Continue
            },
            Expr::Get { object, name } => {
                self.stack.push(Kont::GetProperty { name });
                self.control = Control::Evaluate(&**object);
                Action::Continue
            },
            Expr::SetField { object, name, value } => {
                self.stack.push(Kont::SetObject { name, value: &**value });
                self.control = Control::Evaluate(&**object);
                Action::Continue
            },
            Expr::Super { .. } => self.visit_super_expr(expr),
        }
    }

    /// Hands a value to the continuation on top of the stack, which is taken
    /// off and does its part. With an empty stack the program has ended.
    pub fn resume(&mut self, value: SoxObject<'a>) -> (r: Action<'a>)
        requires
            old(self).wf(),
        ensures
            final(self).wf(),
            final(self).environment.keeps_captured(&old(self).environment),
            final(self).types == old(self).types,
            final(self)._locals == old(self)._locals,
            resumed(*old(self), value, *final(self), r),
    {
        let top = match self.stack.pop() {
            Some(k) => k,
            None => {
                self.control = Control::Idle;
                return Action::Finished(value);
            },
        };
        let ghost rest = self.stack@;
        assert(rest == old(self).stack@.drop_last());
        match top {
            Kont::Program { statements, next } => {
                if next < statements.len() {
                    self.stack.push(Kont::Program { statements, next: next + 1 });
                    self.control = Control::Execute(&statements[next]);
                    Action::Continue
                } else {
                    self.deliver(value)
                }
            },
            Kont::Block { statements, next, frame, restore } => {
                if next < statements.len() {
                    self.stack.push(Kont::Block { statements, next: next + 1, frame, restore });
                    self.control = Control::Execute(&statements[next]);
                    Action::Continue
                } else {
                    self.environment.leave(frame, restore);
                    self.deliver(SoxObject::Nil(SoxNone))
                }
            },
            Kont::Call { restore, this } => {
                self.environment.active = restore;
                match this {
                    Some(v) => self.deliver(v),
                    None => self.deliver(SoxObject::Nil(SoxNone)),
                }
            },
            Kont::Construct { instance } => self.deliver(instance),
            Kont::Discard => self.deliver(SoxObject::Nil(SoxNone)),
            Kont::Print => match self.repr(&value) {
                Rendered::Text(line) => {
                    self.control = Control::Deliver(SoxObject::Nil(SoxNone));
                    Action::Print(line)
                },
                Rendered::Float(x) => self.settle(Outcome::Float(FloatRequest::Render(x))),
            },
            Kont::Define { name } => {
                let _ = self.environment.define(name.lexeme.clone(), value);
                self.deliver(SoxObject::Nil(SoxNone))
            },
            Kont::Branch { then_branch, else_branch } => {
                if self.try_into_rust_bool(&value) {
                    self.stack.push(Kont::Discard);
                    self.control = Control::Execute(then_branch);
                    Action::Continue
                } else {
                    match else_branch {
                        Some(other) => {
                            self.stack.push(Kont::Discard);
                            self.control = Control::Execute(other);
                            Action::Continue
                        },
                        None => self.deliver(SoxObject::Nil(SoxNone)),
                    }
                }
            },
            Kont::LoopTest { condition, body } => {
                if self.try_into_rust_bool(&value) {
                    self.stack.push(Kont::LoopBody { condition, body });
                    self.control = Control::Execute(body);
                    Action::Continue
                } else {
                    self.deliver(SoxObject::Nil(SoxNone))
                }
            },
            Kont::LoopBody { condition, body } => {
                self.stack.push(Kont::LoopTest { condition, body });
                self.control = Control::Evaluate(condition);
                Action::Continue
            },
            Kont::Return => {
                self.control = Control::Unwind(Exception::Return(value));
                Action::Continue
            },
            Kont::Superclass { declaration } => match value {
                SoxObject::Type(c) => self.visit_class_stmt(declaration, Some(c)),
                _ => self.raise(RuntimeError::new("Superclass must be a class")),
            },
            Kont::Assign { name } => match self.assign_variable(name, value.clone()) {
                Ok(_) => self.deliver(value),
                Err(e) => self.raise(e),
            },
            Kont::BinaryRight { operator, right } => {
                self.stack.push(Kont::BinaryApply { operator, left: value });
                self.control = Control::Evaluate(right);
                Action::Continue
            },
            Kont::BinaryApply { operator, left } => match operator.token_type {
                TokenType::EqualEqual => {
                    let outcome = self.equality(&left, &value);
                    self.settle(outcome)
                },
                TokenType::BangEqual => {
                    let outcome = self.equality(&left, &value);
                    self.stack.push(Kont::Negate);
                    self.settle(outcome)
                },
                other => self.settle(binary(other, &left, &value)),
            },
            Kont::Negate => {
                let truth = self.try_into_rust_bool(&value);
                self.deliver(SoxObject::from_bool(!truth))
            },
            Kont::Logical { operator, right } => {
                let truth = self.try_into_rust_bool(&value);
                let stop = if operator.token_type == TokenType::Or {
                    truth
                } else {
                    !truth
                };
                if stop {
                    self.deliver(value)
                } else {
                    self.control = Control::Evaluate(right);
                    Action::Continue
                }
            },
            Kont::Unary { operator } => self.settle(unary(operator.token_type, &value)),
            Kont::Callee { arguments } => {
                if arguments.len() == 0 {
                    self.invoke(value, Vec::new())
                } else {
                    self.stack.push(
                        Kont::Arguments { callee: value, arguments, values: Vec::new() },
                    );
                    assert(self.stack@.drop_last() =~= rest);
                    self.control = Control::Evaluate(&arguments[0]);
                    Action::Continue
                }
            },
            Kont::Arguments { callee, arguments, values } => {
                let mut values = values;
                values.push(value);
                if values.len() < arguments.len() {
                    let at = values.len();
                    self.stack.push(Kont::Arguments { callee, arguments, values });
                    assert(self.stack@.drop_last() =~= rest);
                    self.control = Control::Evaluate(&arguments[at]);
                    Action::Continue
                } else {
                    self.invoke(callee, values)
                }
            },
            Kont::GetProperty { name } => match value {
                SoxObject::TypeInstance(inst) => match SoxInstance::get(inst, name, self) {
                    Ok(v) => self.deliver(v),
                    Err(e) => self.raise(e),
                },
                _ => self.raise(RuntimeError::new("Only class instances have attributes")),
            },
            Kont::SetObject { name, value: field } => match value {
                SoxObject::TypeInstance(inst) => {
                    self.stack.push(Kont::SetValue { instance: inst, name });
                    self.control = Control::Evaluate(field);
                    Action::Continue
                },
                _ => self.raise(RuntimeError::new("Only instances have fields")),
            },
            Kont::SetValue { instance, name } => {
                if instance < self.instances.len() {
                    self.instances[instance].set(&name.lexeme, value.clone());
                    self.deliver(value)
                } else {
                    self.raise(RuntimeError::new("The instance is gone"))
                }
            },
        }
    }
    /// Takes the continuation on top of the stack off, on the way of an
    /// exception towards the call that a `return` ends, or out of the
    /// program. A block on the way has its frame left; a call on the way has
    /// the caller's frame made active again.
    pub fn unwind(&mut self, exception: Exception<'a>) -> (r: Action<'a>)
        requires
            old(self).wf(),
        ensures
            final(self).wf(),
            final(self).environment.keeps_captured(&old(self).environment),
            unwound(*old(self), exception, *final(self), r),
    {
        let top = match self.stack.pop() {
            Some(k) => k,
            None => {
                self.control = Control::Idle;
                return match exception {
                    Exception::Failure(e) => Action::Failed(e),
                    Exception::Return(_) => Action::Failed(
                        RuntimeError::new("Return not allowed at top-level code."),
                    ),
                };
            },
        };
        match top {
            Kont::Block { statements: _, next: _, frame, restore } => {
                self.environment.leave(frame, restore);
                self.control = Control::Unwind(exception);
                Action::Continue
            },
            Kont::Call { restore, this } => {
                self.environment.active = restore;
                match exception {
                    Exception::Return(v) => match this {
                        Some(receiver) => self.deliver(receiver),
                        None => self.deliver(v),
                    },
                    Exception::Failure(e) => self.raise(e),
                }
            },
            _ => {
                self.control = Control::Unwind(exception);
                Action::Continue
            },
        }
    }

    /// Takes the host's answer to the request that the last step made.
    pub fn answer(&mut self, expect: Expect, reply: Option<FloatReply>) -> (r: Action<'a>)
        requires
            old(self).wf(),
        ensures
            final(self).wf(),
            final(self).environment.keeps_captured(&old(self).environment),
            answered(*old(self), expect, reply, *final(self), r),
    {
        match reply {
            Some(FloatReply::Float(x)) => {
                if expect == Expect::Number {
                    return self.deliver(SoxObject::Float(x));
                }
            },
            Some(FloatReply::Bool(b)) => {
                if expect == Expect::Truth {
                    return self.deliver(SoxObject::from_bool(b));
                }
            },
            Some(FloatReply::Text(line)) => {
                if expect == Expect::Text {
                    self.control = Control::Deliver(SoxObject::Nil(SoxNone));
                    return Action::Print(line);
                }
            },
            None => {},
        }
        self.raise(RuntimeError::new("The host gave no answer of the kind asked for"))
    }

    /// Takes one step of the program. `reply` is the host's answer, where the
    /// step before asked for one.
    pub fn step(&mut self, reply: Option<FloatReply>) -> (r: Action<'a>)
        requires
            old(self).wf(),
        ensures
            final(self).wf(),
            final(self).environment.keeps_captured(&old(self).environment),
            stepped(*old(self), reply, *final(self), r),
            sound(*old(self)) ==> sound(*final(self)),
    {
        let mut control = Control::Idle;
        std::mem::swap(&mut self.control, &mut control);
        let r = match control {
            Control::Idle => Action::Finished(SoxObject::Nil(SoxNone)),
            Control::Execute(stmt) => self.execute(stmt),
            Control::Evaluate(expr) => self.evaluate(expr),
            Control::Deliver(value) => self.resume(value),
            Control::Unwind(exception) => self.unwind(exception),
            Control::Await(expect) => self.answer(expect, reply),
        };
        proof {
            if sound(*old(self)) {
                lemma_sound_step(*old(self), reply, *self, r);
            }
        }
        r
    }

    /// Takes steps until one asks something of the host or ends the program,
    /// but no more than `budget` steps and at least one.
    pub fn run(&mut self, reply: Option<FloatReply>, budget: usize) -> (r: Action<'a>)
        requires
            old(self).wf(),
        ensures
            final(self).wf(),
            final(self).environment.keeps_captured(&old(self).environment),
            ran(*old(self), reply, budget, *final(self), r),
            sound(*old(self)) ==> sound(*final(self)),
    {
        let mut action = self.step(reply);
        let mut used: usize = 1;
        while used < budget && is_continue(&action)
            invariant
                self.wf(),
                self.environment.keeps_captured(&old(self).environment),
                sound(*old(self)) ==> sound(*self),
                1 <= used,
                used <= budget || used == 1,
                after_steps(*old(self), reply, used as nat, *self, action),
            decreases budget - used,
        {
            let ghost mid = *self;
            action = self.step(None);
            proof {
                lemma_one_more_step(*old(self), reply, used as nat, mid, *self, action);
            }
            used += 1;
        }
        action
    }
}

/// Whether the action is `Continue`.
pub fn is_continue(action: &Action) -> (r: bool)
    ensures
        r == (*action is Continue),
{
    match action {
        Action::Continue => true,
        _ => false,
    }
}

} // verus!
