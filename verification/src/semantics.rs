use vstd::prelude::*;
use slotmap::DefaultKey;
use crate::builtins::exceptions::{Exception, RuntimeError};
use crate::builtins::float::{FloatReply, FloatRequestView};
use crate::builtins::function::{call_effect, SoxFunction};
use crate::builtins::none::SoxNone;
use crate::builtins::types::{
    method_of, property_read, type_call_effect, undefined_property_text, SoxType,
};
use crate::environment::name_error_text;
use crate::expr::Expr;
use crate::interpreter::{plain_class, Action, Control, Expect, Interpreter, Kont};
use crate::object::{OutcomeView, SoxObject, Value};
use crate::operators::{binary_result, equal_result, truthy, unary_result};
use crate::stmt::Stmt;
use crate::table::{lookup, position};
use crate::token::Literal;
use crate::token_type::TokenType;

verus! {

/// The index of the last of the first `upto` methods that is a function
/// declaration of the name, if any.
pub open spec fn last_method(methods: Seq<Stmt>, name: Seq<char>, upto: int) -> Option<int>
    decreases upto,
{
    if upto <= 0 || upto > methods.len() {
        None
    } else if methods[upto - 1] matches Stmt::Function { name: n, .. } && n.lexeme@ == name {
        Some(upto - 1)
    } else {
        last_method(methods, name, upto - 1)
    }
}

/// The value is the function value of the method declaration: it has the
/// method's name and as many parameters, it captures the frame under `home`,
/// and it is an initializer if and only if its name is `init`.
pub open spec fn is_method<'a>(value: SoxObject<'a>, declaration: &'a Stmt, home: DefaultKey) -> bool {
    &&& *declaration matches Stmt::Function { name, params, .. }
    &&& value matches SoxObject::Function(f)
    &&& f.val.name == name.lexeme
    &&& f.val.declaration == declaration
    &&& f.val.environment_ref == home
    &&& f.val.is_initializer == (name.lexeme@ == "init"@)
    &&& f.val.arity == params@.len()
}

/// What a method table holds under a name is the value of the method at
/// `index`, or nothing where there is no index.
pub open spec fn holds_method<'a>(
    held: Option<SoxObject<'a>>,
    methods: Seq<Stmt>,
    index: Option<int>,
    home: DefaultKey,
) -> bool {
    match index {
        Some(j) => held is Some && is_method(held->0, &methods[j], home),
        None => held is None,
    }
}

/// The method table holds the first `upto` methods: under each name the
/// function value of the last declaration of that name, and nothing under
/// every other name.
pub open spec fn declares<'a>(
    attributes: Seq<(String, SoxObject<'a>)>,
    methods: Seq<Stmt>,
    home: DefaultKey,
    upto: int,
) -> bool {
    forall|name: Seq<char>|
        holds_method(
            #[trigger] lookup(attributes, name),
            methods,
            last_method(methods, name, upto),
            home,
        )
}

/// What declaring a class does to the machine, where `superclass` is the
/// index of its superclass in the class table, if it has one.
///
/// The class table has one more class, with the name, the superclass and the
/// methods declared. The active frame has one more binding, of the class's
/// name; the first binding of that name there holds the class. The methods
/// capture the active frame; where the class has a superclass, they capture
/// a new frame inside it instead, whose one binding is `super`. A frame that
/// methods capture is marked as captured, and so is the active frame then.
/// No other frame changes. A missing active frame and, with a superclass, a
/// full frame store are runtime errors.
pub open spec fn class_declared<'a>(
    before: Interpreter<'a>,
    stmt: &'a Stmt,
    superclass: Option<usize>,
    after: Interpreter<'a>,
) -> bool {
    let env = before.environment;
    let active = env.active;
    &&& after.environment.active == active
    &&& after.environment.global == env.global
    &&& after.instances == before.instances
    &&& after._locals == before._locals
    &&& after.types == before.types
    &&& match *stmt {
        Stmt::Class { name, methods, .. } => {
            if !env.frames().dom().contains(active) {
                &&& after.raised("The active frame is gone"@)
                &&& after.environment.unchanged(&env)
                &&& after.classes == before.classes
            } else if superclass is Some && env.full() {
                &&& after.raised("Too many frames"@)
                &&& after.classes == before.classes
                &&& after.environment.changed_only(&env, active)
                &&& after.environment.frames()[active].extends(
                    env.frames()[active],
                    name.lexeme,
                    SoxObject::Nil(SoxNone),
                )
            } else {
                let class = after.classes@.last();
                let was = env.frames()[active];
                let now = after.environment.frames()[active];
                let named = was.bindings@.push((name.lexeme, SoxObject::Nil(SoxNone)));
                let at = position(named, name.lexeme@, 0)->0;
                let home = class.attributes@[0].1->Function_0.val.environment_ref;
                &&& after.control == Control::Deliver(SoxObject::<'a>::Nil(SoxNone))
                &&& after.classes@.len() == before.classes@.len() + 1
                &&& after.classes@.drop_last() == before.classes@
                &&& class.base == superclass
                &&& class.name_text() == name.lexeme@
                &&& plain_class(class)
                &&& class.methods@.len() == 0
                &&& forall|i: int|
                    0 <= i < class.attributes@.len() ==> (#[trigger] class.attributes@[i]).1
                        is Function && class.attributes@[i].1->Function_0.val.environment_ref == home
                &&& now.bindings@ == named.update(
                    at,
                    (named[at].0, SoxObject::Type(before.classes@.len() as usize)),
                )
                &&& now.parent == was.parent
                &&& now.captured == (was.captured || class.attributes@.len() > 0)
                &&& forall|k: DefaultKey|
                    env.frames().dom().contains(k) && k != active
                        ==> #[trigger] after.environment.frames()[k] == env.frames()[k]
                &&& if class.attributes@.len() == 0 {
                    &&& after.environment.frames().dom() == env.frames().dom()
                    &&& declares(class.attributes@, methods@, active, methods@.len() as int)
                } else if superclass is None {
                    &&& after.environment.frames().dom() == env.frames().dom()
                    &&& home == active
                    &&& declares(class.attributes@, methods@, home, methods@.len() as int)
                } else {
                    let frame = after.environment.frames()[home];
                    &&& !env.frames().dom().contains(home)
                    &&& after.environment.frames().dom() == env.frames().dom().insert(home)
                    &&& declares(class.attributes@, methods@, home, methods@.len() as int)
                    &&& frame.bindings@.len() == 1
                    &&& frame.bindings@[0].0@ == "super"@
                    &&& frame.bindings@[0].1 == SoxObject::<'a>::Type(superclass->0)
                    &&& frame.parent == Some(active)
                    &&& frame.captured
                }
            }
        },
        _ => {
            &&& after.raised("Calling a visit_class_stmt on non class type."@)
            &&& after.environment.unchanged(&env)
            &&& after.classes == before.classes
        },
    }
}

/// The result that the control carries on: the value that is handed on, or
/// the runtime error that is unwound.
pub open spec fn result_of<'a>(control: Control<'a>) -> Option<Result<SoxObject<'a>, RuntimeError>> {
    match control {
        Control::Deliver(v) => Some(Ok(v)),
        Control::Unwind(Exception::Failure(e)) => Some(Err(e)),
        _ => None,
    }
}

/// The machine `after` is `before` with one more continuation on the stack
/// and with the control given; frames and tables are the same.
pub open spec fn pushed<'a>(
    before: Interpreter<'a>,
    after: Interpreter<'a>,
    kont: Kont<'a>,
    control: Control<'a>,
) -> bool {
    goes_on(before, after, before.stack@.push(kont), control)
}

/// What entering a block does, where `stack` is what was left to do.
///
/// With a frame given, that frame becomes active. Without one, a new frame
/// inside the active one becomes active; a full frame store is a runtime
/// error. The statements are what the machine runs next; the continuation
/// holds the block's frame and the frame that was active, for which the
/// block's frame is left in the end.
pub open spec fn block_entered<'a>(
    before: Interpreter<'a>,
    stack: Seq<Kont<'a>>,
    statements: &'a Vec<Stmt>,
    ns_ref: Option<DefaultKey>,
    after: Interpreter<'a>,
) -> bool {
    let env = before.environment;
    &&& after.same_tables(&before)
    &&& match ns_ref {
        Some(k) => {
            &&& after.stack@ == stack.push(
                Kont::Block { statements, next: 0, frame: k, restore: env.active },
            )
            &&& after.control == Control::Deliver(SoxObject::<'a>::Nil(SoxNone))
            &&& after.environment.active == k
            &&& after.environment.global == env.global
            &&& after.environment.frames() == env.frames()
        },
        None => if env.full() {
            &&& after.raised("Too many frames"@)
            &&& after.stack@ == stack
            &&& after.environment.unchanged(&env)
        } else {
            let frame = after.environment.frames()[after.environment.active];
            &&& after.stack@ == stack.push(
                Kont::Block {
                    statements,
                    next: 0,
                    frame: after.environment.active,
                    restore: env.active,
                },
            )
            &&& after.control == Control::Deliver(SoxObject::<'a>::Nil(SoxNone))
            &&& after.environment.added_only(&env, after.environment.active)
            &&& frame.bindings@.len() == 0
            &&& frame.parent == Some(env.active)
            &&& !frame.captured
        },
    }
}

/// What a function declaration does: the function value captures the active
/// frame, which is marked as captured, and is bound to the function's name
/// there. Without an active frame nothing changes.
pub open spec fn function_declared<'a>(
    before: Interpreter<'a>,
    stmt: &'a Stmt,
    after: Interpreter<'a>,
) -> bool {
    let env = before.environment;
    let active = env.active;
    &&& after.same_tables(&before)
    &&& after.environment.active == active
    &&& after.environment.global == env.global
    &&& match *stmt {
        Stmt::Function { name, params, body } => {
            &&& after.control == Control::Deliver(SoxObject::<'a>::Nil(SoxNone))
            &&& if env.frames().dom().contains(active) {
                let was = env.frames()[active];
                let now = after.environment.frames()[active];
                &&& after.environment.frames_changed_only(&env, active)
                &&& now.captured
                &&& now.parent == was.parent
                &&& now.bindings@.len() == was.bindings@.len() + 1
                &&& now.bindings@.drop_last() == was.bindings@
                &&& now.bindings@.last().0 == name.lexeme
                &&& now.bindings@.last().1 matches SoxObject::Function(f)
                &&& *f.val == (SoxFunction {
                    name: name.lexeme,
                    declaration: stmt,
                    environment_ref: active,
                    is_initializer: false,
                    arity: params@.len() as usize,
                })
            } else {
                after.environment.unchanged(&env)
            }
        },
        _ => after.raised(
            "Evaluation failed -  Calling a visit_function_stmt on non function node."@,
        ) && after.environment.unchanged(&env),
    }
}

/// What starting a call of `callee` with the arguments does, where `stack`
/// is what was left to do: a function is called, a class makes an instance,
/// and every other value is not callable, which is a runtime error.
pub open spec fn invoked<'a>(
    before: Interpreter<'a>,
    stack: Seq<Kont<'a>>,
    callee: SoxObject<'a>,
    args: Seq<SoxObject<'a>>,
    after: Interpreter<'a>,
) -> bool {
    match callee {
        SoxObject::Function(_) => after.same_tables(&before) && call_effect(
            before.environment,
            stack,
            after,
            callee,
            args,
        ),
        SoxObject::Type(_) => type_call_effect(
            before,
            stack,
            after,
            callee,
            args,
        ),
        _ => {
            &&& after.raised(not_callable_text(before.class_of(callee)))
            &&& after.stack@ == stack
            &&& after.environment.unchanged(&before.environment)
            &&& after.same_tables(&before)
        },
    }
}

/// What `super.method` gives.
///
/// The resolver's coordinates for the keyword lead to the superclass. The
/// receiver stands one frame nearer, at index zero. The method of that name
/// that the superclass answers to is bound to the receiver, which adds a
/// frame. Missing coordinates, a missing binding, what is no class, and a
/// superclass without the method are runtime errors that change no frame.
pub open spec fn super_read<'a>(before: Interpreter<'a>, expr: &'a Expr, after: Interpreter<'a>) -> bool {
    let env = before.environment;
    let same = after.environment.unchanged(&env);
    &&& after.same_tables(&before)
    &&& match *expr {
        Expr::Super { keyword, method } => match before.placement(keyword) {
            None => after.raised("Unable to resolve super"@) && same,
            Some((depth, index)) => if depth == 0 {
                after.raised("Unable to resolve instance - this"@) && same
            } else {
                match env.value_at(depth, index) {
                    None => after.raised(name_error_text("super"@)) && same,
                    Some(class) => match env.value_at((depth - 1) as usize, 0) {
                        None => after.raised(name_error_text("this"@)) && same,
                        Some(receiver) => match class {
                            SoxObject::Type(c) => match method_of(
                                before.classes@,
                                c as int,
                                method.lexeme@,
                            ) {
                                Some(SoxObject::Function(f)) => {
                                    &&& result_of(after.control) is Some
                                    &&& f.val.binds(
                                        receiver,
                                        &env,
                                        &after.environment,
                                        result_of(after.control)->0,
                                    )
                                },
                                _ => after.raised(undefined_property_text(method.lexeme@)) && same,
                            },
                            _ => after.raised("Unable to resolve instance - this"@) && same,
                        },
                    },
                }
            },
        },
        _ => after.raised("Calling visit_super_expr on none super expr"@) && same,
    }
}

/// What the first step of a statement gives.
pub open spec fn executed<'a>(before: Interpreter<'a>, stmt: &'a Stmt, after: Interpreter<'a>) -> bool {
    let none = Control::Deliver(SoxObject::<'a>::Nil(SoxNone));
    match *stmt {
        Stmt::Expression(e) => goes_on(before, after, before.stack@, Control::Evaluate(&e)),
        Stmt::Print(e) => pushed(before, after, Kont::Print, Control::Evaluate(&e)),
        Stmt::Var { name, initializer: Some(e) } => pushed(
            before,
            after,
            Kont::Define { name: &name },
            Control::Evaluate(&e),
        ),
        Stmt::Var { name, initializer: None } => {
            &&& after.stack == before.stack
            &&& after.control == none
            &&& after.same_tables(&before)
            &&& after.environment.defines(&before.environment, name.lexeme, SoxObject::Nil(SoxNone))
        },
        Stmt::Block(statements) => block_entered(before, before.stack@, &statements, None, after),
        Stmt::If { condition, then_branch, else_branch } => pushed(
            before,
            after,
            Kont::Branch {
                then_branch: &*then_branch,
                else_branch: match *else_branch {
                    Some(s) => Some(&s),
                    None => None,
                },
            },
            Control::Evaluate(&condition),
        ),
        Stmt::While { condition, body } => pushed(
            before,
            after,
            Kont::LoopTest { condition: &condition, body: &*body },
            Control::Evaluate(&condition),
        ),
        Stmt::Function { .. } => after.stack == before.stack && function_declared(
            before,
            stmt,
            after,
        ),
        Stmt::Return { keyword, value: None } => goes_on(
            before,
            after,
            before.stack@,
            Control::Unwind(Exception::Return(SoxObject::<'a>::Nil(SoxNone))),
        ),
        Stmt::Return { keyword, value: Some(e) } => pushed(
            before,
            after,
            Kont::Return,
            Control::Evaluate(&e),
        ),
        Stmt::Class { name, superclass: Some(sc), methods } => pushed(
            before,
            after,
            Kont::Superclass { declaration: stmt },
            Control::Evaluate(&sc),
        ),
        Stmt::Class { name, superclass: None, methods } => after.stack == before.stack
            && class_declared(before, stmt, None, after),
    }
}

/// What the first step of an expression gives.
pub open spec fn evaluated<'a>(
    before: Interpreter<'a>,
    expr: &'a Expr,
    after: Interpreter<'a>,
    r: Action<'a>,
) -> bool {
    match *expr {
        Expr::Literal { value: Literal::Float(text) } => {
            &&& r is Float
            &&& r->Float_0@ == FloatRequestView::Parse(text.0@)
            &&& goes_on(before, after, before.stack@, Control::Await(Expect::Number))
        },
        Expr::Literal { value } => {
            &&& r is Continue
            &&& after.control is Deliver
            &&& after.control->Deliver_0@ == literal_value(value)
            &&& after.same_but_control(&before)
        },
        Expr::Variable { name } => {
            &&& r is Continue
            &&& after.same_but_control(&before)
            &&& result_of(after.control) is Some
            &&& before.looks_up(name, result_of(after.control)->0)
        },
        Expr::This { keyword } => {
            &&& r is Continue
            &&& after.same_but_control(&before)
            &&& result_of(after.control) is Some
            &&& before.looks_up(keyword, result_of(after.control)->0)
        },
        Expr::Assign { name, value } => r is Continue && pushed(
            before,
            after,
            Kont::Assign { name: &name },
            Control::Evaluate(&*value),
        ),
        Expr::Grouping { expr: inner } => r is Continue && goes_on(
            before,
            after,
            before.stack@,
            Control::Evaluate(&*inner),
        ),
        Expr::Binary { left, operator, right } => r is Continue && pushed(
            before,
            after,
            Kont::BinaryRight { operator: &operator, right: &*right },
            Control::Evaluate(&*left),
        ),
        Expr::Logical { left, operator, right } => r is Continue && pushed(
            before,
            after,
            Kont::Logical { operator: &operator, right: &*right },
            Control::Evaluate(&*left),
        ),
        Expr::Unary { operator, right } => r is Continue && pushed(
            before,
            after,
            Kont::Unary { operator: &operator },
            Control::Evaluate(&*right),
        ),
        Expr::Call { callee, paren, arguments } => r is Continue && pushed(
            before,
            after,
            Kont::Callee { arguments: &arguments },
            Control::Evaluate(&*callee),
        ),
        Expr::Get { object, name } => r is Continue && pushed(
            before,
            after,
            Kont::GetProperty { name: &name },
            Control::Evaluate(&*object),
        ),
        Expr::SetField { object, name, value } => r is Continue && pushed(
            before,
            after,
            Kont::SetObject { name: &name, value: &*value },
            Control::Evaluate(&*object),
        ),
        Expr::Super { .. } => r is Continue && after.stack == before.stack && super_read(
            before,
            expr,
            after,
        ),
    }
}

/// `steps` steps lead from `before` to `after`: the first takes the reply,
/// all but the last give `Continue`, and the last gives the action.
pub open spec fn after_steps<'a>(
    before: Interpreter<'a>,
    reply: Option<FloatReply>,
    steps: nat,
    after: Interpreter<'a>,
    action: Action<'a>,
) -> bool
    decreases steps,
{
    if steps == 0 {
        false
    } else if steps == 1 {
        stepped(before, reply, after, action)
    } else {
        exists|mid: Interpreter<'a>|
            #[trigger] stepped(before, reply, mid, Action::Continue) && after_steps(
                mid,
                None,
                (steps - 1) as nat,
                after,
                action,
            )
    }
}

/// What `run` gives: the machine and the action after a number of steps,
/// which is at least one and at most the budget, or one for no budget. The
/// steps end before the budget is used up only with an action other than
/// `Continue`.
pub open spec fn ran<'a>(
    before: Interpreter<'a>,
    reply: Option<FloatReply>,
    budget: usize,
    after: Interpreter<'a>,
    action: Action<'a>,
) -> bool {
    exists|steps: nat|
        {
            &&& 1 <= steps
            &&& steps <= budget || steps == 1
            &&& #[trigger] after_steps(before, reply, steps, after, action)
            &&& action is Continue ==> steps >= budget
        }
}

/// A step after `steps` steps makes one step more.
pub proof fn lemma_one_more_step<'a>(
    before: Interpreter<'a>,
    reply: Option<FloatReply>,
    steps: nat,
    mid: Interpreter<'a>,
    after: Interpreter<'a>,
    action: Action<'a>,
)
    requires
        after_steps(before, reply, steps, mid, Action::Continue),
        stepped(mid, None, after, action),
    ensures
        after_steps(before, reply, steps + 1, after, action),
    decreases steps,
{
    if steps == 1 {
        assert(after_steps(mid, None, 1, after, action));
    } else {
        let first = choose|first: Interpreter<'a>|
            #[trigger] stepped(before, reply, first, Action::Continue) && after_steps(
                first,
                None,
                (steps - 1) as nat,
                mid,
                Action::Continue,
            );
        lemma_one_more_step(first, None, (steps - 1) as nat, mid, after, action);
    }
}

/// A captured frame stays: every frame that a function value has captured
/// is held, and is marked as captured, after any number of steps.
pub proof fn lemma_captured_frames_stay<'a>(
    before: Interpreter<'a>,
    reply: Option<FloatReply>,
    steps: nat,
    after: Interpreter<'a>,
    action: Action<'a>,
)
    requires
        after_steps(before, reply, steps, after, action),
    ensures
        after.environment.keeps_captured(&before.environment),
    decreases steps,
{
    if steps > 1 {
        let mid = choose|mid: Interpreter<'a>|
            #[trigger] stepped(before, reply, mid, Action::Continue) && after_steps(
                mid,
                None,
                (steps - 1) as nat,
                after,
                action,
            );
        lemma_captured_frames_stay(mid, None, (steps - 1) as nat, after, action);
    }
}

/// What a step asks of the host depends on the machine before the step and
/// on the host's reply alone: two steps from the same machine give the same
/// action.
pub proof fn lemma_action_is_determined<'a>(
    before: Interpreter<'a>,
    reply: Option<FloatReply>,
    first: Interpreter<'a>,
    first_action: Action<'a>,
    second: Interpreter<'a>,
    second_action: Action<'a>,
)
    requires
        stepped(before, reply, first, first_action),
        stepped(before, reply, second, second_action),
    ensures
        first_action@ == second_action@,
{
    let idle = Interpreter { control: Control::Idle, ..before };
    match before.control {
        Control::Execute(stmt) => {},
        Control::Evaluate(expr) => {
            assert(evaluated(idle, expr, first, first_action));
            assert(evaluated(idle, expr, second, second_action));
        },
        Control::Deliver(value) => {
            assert(resumed(idle, value, first, first_action));
            assert(resumed(idle, value, second, second_action));
        },
        Control::Unwind(exception) => {
            assert(unwound(idle, exception, first, first_action));
            assert(unwound(idle, exception, second, second_action));
        },
        Control::Await(expect) => {
            assert(answered(idle, expect, reply, first, first_action));
            assert(answered(idle, expect, reply, second, second_action));
        },
        Control::Idle => {},
    }
}

/// A block's frame is left when the block is: a step that takes the
/// continuation of a block off the stack, at the end of the block's
/// statements or on the way of a `return` or of a runtime error, leaves the
/// block's frame for the frame that was active before the block. No other
/// step takes the continuation off.
pub proof fn lemma_block_frame_is_left<'a>(
    before: Interpreter<'a>,
    reply: Option<FloatReply>,
    after: Interpreter<'a>,
    action: Action<'a>,
)
    requires
        stepped(before, reply, after, action),
        before.stack@.len() > 0,
        before.stack@.last() is Block,
        after.stack@.len() < before.stack@.len(),
    ensures
        before.control is Deliver || before.control is Unwind,
        before.control is Deliver ==> before.stack@.last()->Block_next
            >= before.stack@.last()->Block_statements@.len(),
        after.stack@ == before.stack@.drop_last(),
        after.environment.leaves(
            &before.environment,
            before.stack@.last()->frame,
            before.stack@.last()->Block_restore,
        ),
        after.environment.active == before.stack@.last()->Block_restore,
{
    let idle = Interpreter { control: Control::Idle, ..before };
    match before.control {
        Control::Execute(stmt) => {
            assert(executed(idle, stmt, after));
        },
        Control::Evaluate(expr) => {
            assert(evaluated(idle, expr, after, action));
        },
        _ => {},
    }
}

/// What one step of unwinding gives.
///
/// With an empty stack the program has ended: with the runtime error, or, for
/// a `return` that no call has taken, with the error that says so. A block on
/// top has its frame left. A call on top makes the caller's frame active
/// again and takes a `return`: the value returned goes on from there, or
/// `this` for an initializer. Every other continuation is dropped.
pub open spec fn unwound<'a>(
    before: Interpreter<'a>,
    exception: Exception<'a>,
    after: Interpreter<'a>,
    action: Action<'a>,
) -> bool {
    &&& after.same_tables(&before)
    &&& if before.stack@.len() == 0 {
        &&& after.stack@.len() == 0
        &&& after.control is Idle
        &&& after.environment == before.environment
        &&& action is Failed
        &&& action->Failed_0.msg@ == (match exception {
            Exception::Failure(e) => e.msg@,
            Exception::Return(_) => "Return not allowed at top-level code."@,
        })
    } else {
        &&& action is Continue
        &&& after.stack@ == before.stack@.drop_last()
        &&& match before.stack@.last() {
            Kont::Block { statements, next, frame, restore } => after.control == Control::Unwind(
                exception,
            ) && after.environment.leaves(&before.environment, frame, restore),
            Kont::Call { restore, this } => {
                &&& after.environment.active == restore
                &&& after.environment.global == before.environment.global
                &&& after.environment.frames() == before.environment.frames()
                &&& after.control == (match exception {
                    Exception::Return(v) => Control::Deliver(
                        match this {
                            Some(receiver) => receiver,
                            None => v,
                        },
                    ),
                    Exception::Failure(e) => Control::Unwind(Exception::Failure(e)),
                })
            },
            _ => after.control == Control::Unwind(exception) && after.environment
                == before.environment,
        }
    }
}

/// What taking the host's answer gives: a number or a boolean that was asked
/// for is the value that goes on; a text that was asked for is printed; every
/// other answer, and none, is a runtime error.
pub open spec fn answered<'a>(
    before: Interpreter<'a>,
    expect: Expect,
    reply: Option<FloatReply>,
    after: Interpreter<'a>,
    action: Action<'a>,
) -> bool {
    &&& after.same_but_control(&before)
    &&& match (expect, reply) {
        (Expect::Number, Some(FloatReply::Float(x))) => action is Continue && after.control
            == Control::Deliver(SoxObject::<'a>::Float(x)),
        (Expect::Truth, Some(FloatReply::Bool(b))) => action is Continue && after.control is Deliver
            && after.control->Deliver_0@ == Value::<'a>::Boolean(b),
        (Expect::Text, Some(FloatReply::Text(line))) => action == Action::<'a>::Print(line)
            && after.control == Control::Deliver(SoxObject::<'a>::Nil(SoxNone)),
        _ => action is Continue && after.raised("The host gave no answer of the kind asked for"@),
    }
}

/// What one step gives, by what the machine was about to do. Whatever it
/// does, no captured frame is dropped.
pub open spec fn stepped<'a>(
    before: Interpreter<'a>,
    reply: Option<FloatReply>,
    after: Interpreter<'a>,
    action: Action<'a>,
) -> bool {
    let idle = Interpreter { control: Control::Idle, ..before };
    &&& after.environment.keeps_captured(&before.environment)
    &&& match before.control {
        Control::Idle => action == Action::Finished(SoxObject::<'a>::Nil(SoxNone)) && after == before,
        Control::Execute(stmt) => action is Continue && executed(idle, stmt, after),
        Control::Evaluate(expr) => evaluated(idle, expr, after, action),
        Control::Deliver(value) => resumed(idle, value, after, action),
        Control::Unwind(exception) => unwound(idle, exception, after, action),
        Control::Await(expect) => answered(idle, expect, reply, after, action),
    }
}

/// The machine `after` is `before` with the continuations given on the
/// stack and with the control given; frames and tables are the same.
pub open spec fn goes_on<'a>(
    before: Interpreter<'a>,
    after: Interpreter<'a>,
    stack: Seq<Kont<'a>>,
    control: Control<'a>,
) -> bool {
    &&& after.stack@ == stack
    &&& after.control == control
    &&& after.environment == before.environment
    &&& after.same_tables(&before)
}

/// What handing `value` to the continuation on top of the stack of `before`
/// gives: the machine `after` and the action.
///
/// `rest` below is the stack without its top. For the continuations that
/// start a call, read a property, print a fractional number or declare a
/// class, the functions that do so say more.
pub open spec fn resumed<'a>(
    before: Interpreter<'a>,
    value: SoxObject<'a>,
    after: Interpreter<'a>,
    action: Action<'a>,
) -> bool {
    let none = Control::Deliver(SoxObject::<'a>::Nil(SoxNone));
    if before.stack@.len() == 0 {
        action == Action::Finished(value) && goes_on(before, after, before.stack@, Control::Idle)
    } else {
        let rest = before.stack@.drop_last();
        match before.stack@.last() {
            Kont::Program { statements, next } => action is Continue && if next < statements@.len() {
                goes_on(
                    before,
                    after,
                    rest.push(Kont::Program { statements, next: (next + 1) as usize }),
                    Control::Execute(&statements@[next as int]),
                )
            } else {
                goes_on(before, after, rest, Control::Deliver(value))
            },
            Kont::Block { statements, next, frame, restore } => action is Continue && if next
                < statements@.len() {
                goes_on(
                    before,
                    after,
                    rest.push(
                        Kont::Block { statements, next: (next + 1) as usize, frame, restore },
                    ),
                    Control::Execute(&statements@[next as int]),
                )
            } else {
                &&& after.stack@ == rest
                &&& after.control == none
                &&& after.same_tables(&before)
                &&& after.environment.leaves(&before.environment, frame, restore)
            },
            Kont::Call { restore, this } => {
                &&& action is Continue
                &&& after.stack@ == rest
                &&& after.control == Control::Deliver(
                    match this {
                        Some(v) => v,
                        None => SoxObject::Nil(SoxNone),
                    },
                )
                &&& after.same_tables(&before)
                &&& after.environment.active == restore
                &&& after.environment.global == before.environment.global
                &&& after.environment.frames() == before.environment.frames()
            },
            Kont::Construct { instance } => action is Continue && goes_on(
                before,
                after,
                rest,
                Control::Deliver(instance),
            ),
            Kont::Discard => action is Continue && goes_on(before, after, rest, none),
            Kont::Print => match value {
                SoxObject::Float(x) => {
                    &&& action is Float
                    &&& action->Float_0@ == FloatRequestView::Render(x)
                    &&& goes_on(before, after, rest, Control::Await(Expect::Text))
                },
                _ => {
                    &&& action is Print
                    &&& action->Print_0@ == before.text_of(value)
                    &&& goes_on(before, after, rest, none)
                },
            },
            Kont::Define { name } => {
                &&& action is Continue
                &&& after.stack@ == rest
                &&& after.control == none
                &&& after.same_tables(&before)
                &&& after.environment.defines(&before.environment, name.lexeme, value)
            },
            Kont::Branch { then_branch, else_branch } => action is Continue && if truthy(value@) {
                goes_on(before, after, rest.push(Kont::Discard), Control::Execute(then_branch))
            } else {
                match else_branch {
                    Some(other) => goes_on(
                        before,
                        after,
                        rest.push(Kont::Discard),
                        Control::Execute(other),
                    ),
                    None => goes_on(before, after, rest, none),
                }
            },
            Kont::LoopTest { condition, body } => action is Continue && if truthy(value@) {
                goes_on(
                    before,
                    after,
                    rest.push(Kont::LoopBody { condition, body }),
                    Control::Execute(body),
                )
            } else {
                goes_on(before, after, rest, none)
            },
            Kont::LoopBody { condition, body } => action is Continue && goes_on(
                before,
                after,
                rest.push(Kont::LoopTest { condition, body }),
                Control::Evaluate(condition),
            ),
            Kont::Return => action is Continue && goes_on(
                before,
                after,
                rest,
                Control::Unwind(Exception::Return(value)),
            ),
            Kont::Superclass { declaration } => action is Continue && after.stack@ == rest
                && match value {
                SoxObject::Type(c) => class_declared(before, declaration, Some(c), after),
                _ => after.raised("Superclass must be a class"@) && after.environment
                    == before.environment && after.same_tables(&before),
            },
            Kont::Assign { name } => {
                &&& action is Continue
                &&& after.stack@ == rest
                &&& after.same_tables(&before)
                &&& match after.control {
                    Control::Deliver(v) => v == value && after.assigns(
                        &before,
                        *name,
                        value,
                        Ok::<(), RuntimeError>(()),
                    ),
                    Control::Unwind(Exception::Failure(e)) => after.assigns(
                        &before,
                        *name,
                        value,
                        Err::<(), RuntimeError>(e),
                    ),
                    _ => false,
                }
            },
            Kont::BinaryRight { operator, right } => action is Continue && goes_on(
                before,
                after,
                rest.push(Kont::BinaryApply { operator, left: value }),
                Control::Evaluate(right),
            ),
            Kont::BinaryApply { operator, left } => {
                let outcome = if operator.token_type == TokenType::EqualEqual
                    || operator.token_type == TokenType::BangEqual {
                    equal_result(left@, value@)
                } else {
                    binary_result(operator.token_type, left@, value@)
                };
                &&& after.stack@ == if operator.token_type == TokenType::BangEqual {
                    rest.push(Kont::Negate)
                } else {
                    rest
                }
                &&& after.environment == before.environment
                &&& after.same_tables(&before)
                &&& settled(outcome, after.control, action)
            },
            Kont::Negate => action is Continue && after.stack@ == rest && after.control is Deliver
                && after.control->Deliver_0@ == Value::<'a>::Boolean(!truthy(value@))
                && after.environment == before.environment && after.same_tables(&before),
            Kont::Logical { operator, right } => action is Continue && if truthy(value@) == (
            operator.token_type == TokenType::Or) {
                goes_on(before, after, rest, Control::Deliver(value))
            } else {
                goes_on(before, after, rest, Control::Evaluate(right))
            },
            Kont::Unary { operator } => {
                &&& after.stack@ == rest
                &&& after.environment == before.environment
                &&& after.same_tables(&before)
                &&& settled(
                    unary_result(operator.token_type, value@),
                    after.control,
                    action,
                )
            },
            Kont::Callee { arguments } => action is Continue && if arguments@.len() == 0 {
                invoked(before, rest, value, Seq::empty(), after)
            } else {
                &&& after.stack@.len() == before.stack@.len()
                &&& after.stack@.drop_last() == rest
                &&& after.stack@.last() is Arguments
                &&& after.stack@.last()->callee == value
                &&& after.stack@.last()->Arguments_arguments == arguments
                &&& after.stack@.last()->values@.len() == 0
                &&& after.control == Control::Evaluate(&arguments@[0])
                &&& after.environment == before.environment
                &&& after.same_tables(&before)
            },
            Kont::Arguments { callee, arguments, values } => action is Continue && if values@.len()
                + 1 >= arguments@.len() {
                invoked(before, rest, callee, values@.push(value), after)
            } else {
                &&& after.stack@.len() == before.stack@.len()
                &&& after.stack@.drop_last() == rest
                &&& after.stack@.last() is Arguments
                &&& after.stack@.last()->callee == callee
                &&& after.stack@.last()->Arguments_arguments == arguments
                &&& after.stack@.last()->values@ == values@.push(value)
                &&& after.control == Control::Evaluate(&arguments@[values@.len() as int + 1])
                &&& after.environment == before.environment
                &&& after.same_tables(&before)
            },
            Kont::GetProperty { name } => {
                &&& action is Continue
                &&& after.stack@ == rest
                &&& after.same_tables(&before)
                &&& match value {
                    SoxObject::TypeInstance(inst) => {
                        &&& result_of(after.control) is Some
                        &&& property_read(
                            before,
                            inst,
                            name.lexeme@,
                            after.environment,
                            result_of(after.control)->0,
                        )
                    },
                    _ => after.raised("Only class instances have attributes"@)
                        && after.environment == before.environment,
                }
            },
            Kont::SetObject { name, value: field } => action is Continue && match value {
                SoxObject::TypeInstance(inst) => goes_on(
                    before,
                    after,
                    rest.push(Kont::SetValue { instance: inst, name }),
                    Control::Evaluate(field),
                ),
                _ => goes_on(before, after, rest, after.control) && after.raised(
                    "Only instances have fields"@,
                ),
            },
            Kont::SetValue { instance, name } => {
                &&& action is Continue
                &&& after.stack@ == rest
                &&& after.environment == before.environment
                &&& after.types == before.types
                &&& after.classes == before.classes
                &&& after._locals == before._locals
                &&& if instance < before.instances@.len() {
                    &&& after.control == Control::Deliver(value)
                    &&& after.instances@.len() == before.instances@.len()
                    &&& forall|j: int|
                        0 <= j < before.instances@.len() && j != instance
                            ==> after.instances@[j] == before.instances@[j]
                    &&& after.instances@[instance as int].assigned(
                        before.instances@[instance as int],
                        name.lexeme@,
                        value,
                    )
                } else {
                    after.control is Unwind && after.instances == before.instances
                }
            },
        }
    }
}

/// The control and the action that follow the end of an operation: its value
/// is handed on, its error is unwound, and its request goes to the host,
/// whose answer is awaited.
pub open spec fn settled<'a>(outcome: OutcomeView<'a>, control: Control<'a>, action: Action<'a>) -> bool {
    match outcome {
        OutcomeView::Value(v) => action is Continue && control is Deliver && control->Deliver_0@ == v,
        OutcomeView::Failure(msg) => {
            &&& action is Continue
            &&& control matches Control::Unwind(Exception::Failure(e))
            &&& e.msg@ == msg
        },
        OutcomeView::Float(q) => action is Float && action->Float_0@ == q && control
            == Control::<'a>::Await(
            if q is Compare {
                Expect::Truth
            } else if q is Render {
                Expect::Text
            } else {
                Expect::Number
            },
        ),
    }

}

/// The value that a literal denotes, but for a fractional number, which the
/// host reads.
pub open spec fn literal_value<'a>(literal: Literal) -> Value<'a> {
    match literal {
        Literal::String(s) => Value::Str(s@),
        Literal::Integer(i) => Value::Int(i),
        Literal::Boolean(b) => Value::Boolean(b),
        _ => Value::Nil,
    }
}

/// The message for a call of a value whose class has no call slot.
pub open spec fn not_callable_text(class: Option<SoxType<'_>>) -> Seq<char> {
    (match class {
        Some(t) => t.name_text(),
        None => Seq::<char>::empty(),
    }) + " object is not callable"@
}

} // verus!
