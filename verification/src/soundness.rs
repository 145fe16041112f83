use vstd::prelude::*;
use slotmap::DefaultKey;
use crate::builtins::exceptions::Exception;
use crate::builtins::float::FloatReply;
use crate::environment::Namespace;
use crate::interpreter::{Action, Control, Expect, Interpreter, Kont};
use crate::object::{SoxObject, Value};
use crate::builtins::exceptions::RuntimeError;
use crate::builtins::function::{call_effect, call_started, receiver_of, SoxFunction};
use crate::builtins::types::{init_called, method_of, property_read, type_call_effect, SoxType};
use crate::environment::{find_up, lemma_find_up_held};
use crate::environment::{ancestor, lemma_ancestor_held, EnvKey};
use crate::expr::Expr;
use crate::semantics::{
    after_steps, answered, block_entered, class_declared, evaluated, executed,
    function_declared, invoked, resumed, result_of, stepped, super_read, unwound,
};
use crate::stmt::Stmt;
use crate::table::{lemma_position, position};
use crate::token::Token;

verus! {

/// What values may refer to: the frames, and how many classes and instances
/// there are.
pub struct Heap<'a> {
    pub frames: Map<DefaultKey, Namespace<'a>>,
    pub classes: nat,
    pub instances: nat,
}

/// What the values of a machine may refer to.
pub open spec fn heap_of<'a>(m: Interpreter<'a>) -> Heap<'a> {
    Heap {
        frames: m.environment.frames(),
        classes: m.classes@.len(),
        instances: m.instances@.len(),
    }
}

/// The value refers to what there is: a function to a frame that is held and
/// marked as captured, a class to a descriptor of the class table, an
/// instance to a record of the instance table. An exception that is a value
/// is a runtime error.
pub open spec fn refers<'a>(v: Value<'a>, h: Heap<'a>) -> bool {
    match v {
        Value::Function(f) => h.frames.dom().contains(f.environment_ref)
            && h.frames[f.environment_ref].captured,
        Value::Type(c) => c < h.classes,
        Value::TypeInstance(i) => i < h.instances,
        Value::Exception(e) => e is Failure,
        _ => true,
    }
}

/// Every value of the table refers to what there is.
pub open spec fn all_refer<'a>(entries: Seq<(String, SoxObject<'a>)>, h: Heap<'a>) -> bool {
    forall|i: int| 0 <= i < entries.len() ==> refers((#[trigger] entries[i]).1@, h)
}

/// Every value that the continuation holds refers to what there is.
pub open spec fn kont_refers<'a>(kont: Kont<'a>, h: Heap<'a>) -> bool {
    match kont {
        Kont::Call { restore, this } => this matches Some(v) ==> refers(v@, h),
        Kont::Construct { instance } => refers(instance@, h),
        Kont::BinaryApply { operator, left } => refers(left@, h),
        Kont::Arguments { callee, arguments, values } => refers(callee@, h) && forall|i: int|
            0 <= i < values@.len() ==> refers((#[trigger] values@[i])@, h),
        Kont::SetValue { instance, name } => instance < h.instances,
        _ => true,
    }
}

/// Every value that the control holds refers to what there is.
pub open spec fn control_refers<'a>(control: Control<'a>, h: Heap<'a>) -> bool {
    match control {
        Control::Deliver(v) => refers(v@, h),
        Control::Unwind(Exception::Return(v)) => refers(v@, h),
        _ => true,
    }
}

/// The machine is sound: every value in it refers to what there is. The
/// values are those bound in the frames, the methods of the classes, the
/// fields of the instances, and those that the continuations and the control
/// hold.
pub open spec fn sound<'a>(m: Interpreter<'a>) -> bool {
    let h = heap_of(m);
    &&& forall|k: DefaultKey|
        h.frames.dom().contains(k) ==> all_refer((#[trigger] h.frames[k]).bindings@, h)
    &&& forall|c: int| 0 <= c < m.classes@.len() ==> all_refer((#[trigger] m.classes@[c]).attributes@, h)
    &&& forall|i: int| 0 <= i < m.instances@.len() ==> all_refer((#[trigger] m.instances@[i]).fields@, h)
    &&& forall|s: int| 0 <= s < m.stack@.len() ==> kont_refers(#[trigger] m.stack@[s], h)
    &&& control_refers(m.control, h)
}

/// The heap `later` has what `earlier` has: its captured frames, held and
/// captured, and at least as many classes and instances.
pub open spec fn grown<'a>(earlier: Heap<'a>, later: Heap<'a>) -> bool {
    &&& forall|k: DefaultKey|
        earlier.frames.dom().contains(k) && (#[trigger] earlier.frames[k]).captured
            ==> later.frames.dom().contains(k) && later.frames[k].captured
    &&& earlier.classes <= later.classes
    &&& earlier.instances <= later.instances
}

/// What refers to what there is goes on doing so as the heap grows.
pub proof fn lemma_refers_grown<'a>(v: Value<'a>, earlier: Heap<'a>, later: Heap<'a>)
    requires
        refers(v, earlier),
        grown(earlier, later),
    ensures
        refers(v, later),
{
    match v {
        Value::Function(f) => {
            assert(earlier.frames[f.environment_ref].captured);
        },
        _ => {},
    }
}

/// As `lemma_refers_grown`, for the values of a table.
pub proof fn lemma_all_refer_grown<'a>(
    entries: Seq<(String, SoxObject<'a>)>,
    earlier: Heap<'a>,
    later: Heap<'a>,
)
    requires
        all_refer(entries, earlier),
        grown(earlier, later),
    ensures
        all_refer(entries, later),
{
    assert forall|i: int| 0 <= i < entries.len() implies refers((#[trigger] entries[i]).1@, later) by {
        lemma_refers_grown(entries[i].1@, earlier, later);
    }
}

/// As `lemma_refers_grown`, for the values of a continuation.
pub proof fn lemma_kont_refers_grown<'a>(kont: Kont<'a>, earlier: Heap<'a>, later: Heap<'a>)
    requires
        kont_refers(kont, earlier),
        grown(earlier, later),
    ensures
        kont_refers(kont, later),
{
    match kont {
        Kont::Call { restore, this } => {
            if this is Some {
                lemma_refers_grown(this->0@, earlier, later);
            }
        },
        Kont::Construct { instance } => {
            lemma_refers_grown(instance@, earlier, later);
        },
        Kont::BinaryApply { operator, left } => {
            lemma_refers_grown(left@, earlier, later);
        },
        Kont::Arguments { callee, arguments, values } => {
            lemma_refers_grown(callee@, earlier, later);
            assert forall|i: int| 0 <= i < values@.len() implies refers(
                (#[trigger] values@[i])@,
                later,
            ) by {
                lemma_refers_grown(values@[i]@, earlier, later);
            }
        },
        _ => {},
    }
}

/// The frame under `k` in `after` has the bindings that it had in `before`,
/// or bindings whose values refer to what there is.
pub open spec fn frame_kept<'a>(before: Interpreter<'a>, after: Interpreter<'a>, k: DefaultKey) -> bool {
    let was = before.environment.frames();
    let now = after.environment.frames();
    ||| was.dom().contains(k) && now[k].bindings == was[k].bindings
    ||| all_refer(now[k].bindings@, heap_of(after))
}

/// The class at `c` in `after` is the class there in `before`, or a class
/// whose methods refer to what there is.
pub open spec fn class_kept<'a>(before: Interpreter<'a>, after: Interpreter<'a>, c: int) -> bool {
    ||| c < before.classes@.len() && after.classes@[c] == before.classes@[c]
    ||| all_refer(after.classes@[c].attributes@, heap_of(after))
}

/// The instance at `i` in `after` is the instance there in `before`, or an
/// instance whose fields refer to what there is.
pub open spec fn instance_kept<'a>(before: Interpreter<'a>, after: Interpreter<'a>, i: int) -> bool {
    ||| i < before.instances@.len() && after.instances@[i] == before.instances@[i]
    ||| all_refer(after.instances@[i].fields@, heap_of(after))
}

/// The continuation at `s` in `after` is the continuation there in `before`,
/// or one whose values refer to what there is.
pub open spec fn kont_kept<'a>(before: Interpreter<'a>, after: Interpreter<'a>, s: int) -> bool {
    ||| s < before.stack@.len() && after.stack@[s] == before.stack@[s]
    ||| kont_refers(after.stack@[s], heap_of(after))
}

/// A machine is sound that comes from a sound machine by growing the heap,
/// where everything in it is as it was or holds values that refer to what
/// there is.
pub proof fn lemma_sound_from<'a>(before: Interpreter<'a>, after: Interpreter<'a>)
    requires
        sound(before),
        grown(heap_of(before), heap_of(after)),
        forall|k: DefaultKey|
            after.environment.frames().dom().contains(k) ==> #[trigger] frame_kept(before, after, k),
        forall|c: int| 0 <= c < after.classes@.len() ==> #[trigger] class_kept(before, after, c),
        forall|i: int| 0 <= i < after.instances@.len() ==> #[trigger] instance_kept(before, after, i),
        forall|s: int| 0 <= s < after.stack@.len() ==> #[trigger] kont_kept(before, after, s),
        control_refers(after.control, heap_of(after)),
    ensures
        sound(after),
{
    let hb = heap_of(before);
    let ha = heap_of(after);
    assert forall|k: DefaultKey| ha.frames.dom().contains(k) implies all_refer(
        (#[trigger] ha.frames[k]).bindings@,
        ha,
    ) by {
        assert(frame_kept(before, after, k));
        if hb.frames.dom().contains(k) && ha.frames[k].bindings == hb.frames[k].bindings {
            lemma_all_refer_grown(hb.frames[k].bindings@, hb, ha);
        }
    }
    assert forall|c: int| 0 <= c < after.classes@.len() implies all_refer(
        (#[trigger] after.classes@[c]).attributes@,
        ha,
    ) by {
        assert(class_kept(before, after, c));
        if c < before.classes@.len() && after.classes@[c] == before.classes@[c] {
            lemma_all_refer_grown(before.classes@[c].attributes@, hb, ha);
        }
    }
    assert forall|i: int| 0 <= i < after.instances@.len() implies all_refer(
        (#[trigger] after.instances@[i]).fields@,
        ha,
    ) by {
        assert(instance_kept(before, after, i));
        if i < before.instances@.len() && after.instances@[i] == before.instances@[i] {
            lemma_all_refer_grown(before.instances@[i].fields@, hb, ha);
        }
    }
    assert forall|s: int| 0 <= s < after.stack@.len() implies kont_refers(
        #[trigger] after.stack@[s],
        ha,
    ) by {
        assert(kont_kept(before, after, s));
        if s < before.stack@.len() && after.stack@[s] == before.stack@[s] {
            lemma_kont_refers_grown(before.stack@[s], hb, ha);
        }
    }
}

/// A machine is sound that differs from a sound machine in its control and
/// in the top of its stack alone: `kept` continuations are as they were, and
/// those above them and the control hold values that refer to what there is.
pub proof fn lemma_sound_same_heap<'a>(before: Interpreter<'a>, after: Interpreter<'a>, kept: int)
    requires
        sound(before),
        after.environment.frames() == before.environment.frames(),
        after.classes == before.classes,
        after.instances == before.instances,
        0 <= kept <= before.stack@.len(),
        kept <= after.stack@.len(),
        forall|s: int| 0 <= s < kept ==> after.stack@[s] == before.stack@[s],
        forall|s: int|
            kept <= s < after.stack@.len() ==> kont_refers(#[trigger] after.stack@[s], heap_of(after)),
        control_refers(after.control, heap_of(after)),
    ensures
        sound(after),
{
    assert(heap_of(after) == heap_of(before));
    assert forall|k: DefaultKey| after.environment.frames().dom().contains(k) implies #[trigger]
        frame_kept(before, after, k) by {}
    assert forall|c: int| 0 <= c < after.classes@.len() implies #[trigger] class_kept(
        before,
        after,
        c,
    ) by {}
    assert forall|i: int| 0 <= i < after.instances@.len() implies #[trigger] instance_kept(
        before,
        after,
        i,
    ) by {}
    assert forall|s: int| 0 <= s < after.stack@.len() implies #[trigger] kont_kept(
        before,
        after,
        s,
    ) by {}
    lemma_sound_from(before, after);
}

/// The heap of `after` has what the heap of `before` has, where no captured
/// frame was dropped and the tables did not shrink.
pub proof fn lemma_grown<'a>(before: Interpreter<'a>, after: Interpreter<'a>)
    requires
        after.environment.keeps_captured(&before.environment),
        before.classes@.len() <= after.classes@.len(),
        before.instances@.len() <= after.instances@.len(),
    ensures
        grown(heap_of(before), heap_of(after)),
{
}

/// Taking the host's answer keeps a sound machine sound.
pub proof fn lemma_sound_answered<'a>(
    before: Interpreter<'a>,
    expect: Expect,
    reply: Option<FloatReply>,
    after: Interpreter<'a>,
    action: Action<'a>,
)
    requires
        sound(before),
        answered(before, expect, reply, after, action),
    ensures
        sound(after),
{
    lemma_sound_same_heap(before, after, before.stack@.len() as int);
}

/// A step of unwinding keeps a sound machine sound, where the exception
/// that is unwound holds a value that refers to what there is.
pub proof fn lemma_sound_unwound<'a>(
    before: Interpreter<'a>,
    exception: Exception<'a>,
    after: Interpreter<'a>,
    action: Action<'a>,
)
    requires
        sound(before),
        control_refers(Control::Unwind(exception), heap_of(before)),
        after.environment.keeps_captured(&before.environment),
        unwound(before, exception, after, action),
    ensures
        sound(after),
{
    lemma_grown(before, after);
    let hb = heap_of(before);
    let ha = heap_of(after);
    if before.stack@.len() > 0 {
        let top = before.stack@.last();
        assert(kont_refers(top, hb));
        lemma_kont_refers_grown(top, hb, ha);
        match exception {
            Exception::Return(v) => {
                lemma_refers_grown(v@, hb, ha);
            },
            _ => {},
        }
    }
    assert forall|k: DefaultKey| after.environment.frames().dom().contains(k) implies #[trigger]
        frame_kept(before, after, k) by {}
    assert forall|c: int| 0 <= c < after.classes@.len() implies #[trigger] class_kept(
        before,
        after,
        c,
    ) by {}
    assert forall|i: int| 0 <= i < after.instances@.len() implies #[trigger] instance_kept(
        before,
        after,
        i,
    ) by {}
    assert forall|s: int| 0 <= s < after.stack@.len() implies #[trigger] kont_kept(
        before,
        after,
        s,
    ) by {}
    lemma_sound_from(before, after);
}

/// What a sound machine reads by coordinates refers to what there is.
pub proof fn lemma_read_refers<'a>(
    m: Interpreter<'a>,
    key: EnvKey,
    r: Result<SoxObject<'a>, RuntimeError>,
)
    requires
        sound(m),
        m.environment.reads(key, r),
    ensures
        r matches Ok(v) ==> refers(v@, heap_of(m)),
{
    lemma_ancestor_held(m.environment.frames(), m.environment.active, key.1 as nat);
    match ancestor(m.environment.frames(), m.environment.active, key.1 as nat) {
        Some(f) => {
            assert(all_refer(m.environment.frames()[f].bindings@, heap_of(m)));
        },
        None => {},
    }
}

/// What a sound machine finds for a variable refers to what there is.
pub proof fn lemma_looks_up_refers<'a>(
    m: Interpreter<'a>,
    name: Token,
    r: Result<SoxObject<'a>, RuntimeError>,
)
    requires
        sound(m),
        m.looks_up(name, r),
    ensures
        r matches Ok(v) ==> refers(v@, heap_of(m)),
{
    match m.placement(name) {
        Some((depth, index)) => {
            lemma_read_refers(m, (name.lexeme, depth, index), r);
        },
        None => {
            let frames = m.environment.frames();
            let global = m.environment.global;
            if frames.dom().contains(global) {
                lemma_position(frames[global].bindings@, name.lexeme@, 0);
                assert(all_refer(frames[global].bindings@, heap_of(m)));
            }
        },
    }
}

/// Every frame, class, instance and continuation of `after` is kept from
/// `before`, where `kept` continuations are as they were and the ones above
/// them hold values that refer to what there is.
pub open spec fn all_kept<'a>(before: Interpreter<'a>, after: Interpreter<'a>) -> bool {
    &&& forall|k: DefaultKey|
        after.environment.frames().dom().contains(k) ==> #[trigger] frame_kept(before, after, k)
    &&& forall|c: int| 0 <= c < after.classes@.len() ==> #[trigger] class_kept(before, after, c)
    &&& forall|i: int| 0 <= i < after.instances@.len() ==> #[trigger] instance_kept(before, after, i)
    &&& forall|s: int| 0 <= s < after.stack@.len() ==> #[trigger] kont_kept(before, after, s)
}

/// A method bound to a receiver keeps a sound machine sound: the frame that
/// binding adds holds the receiver, and the bound method refers to that
/// frame.
pub proof fn lemma_sound_bound<'a>(
    before: Interpreter<'a>,
    f: SoxFunction<'a>,
    receiver: SoxObject<'a>,
    after: Interpreter<'a>,
    r: Result<SoxObject<'a>, RuntimeError>,
)
    requires
        sound(before),
        refers(receiver@, heap_of(before)),
        f.binds(receiver, &before.environment, &after.environment, r),
        after.environment.keeps_captured(&before.environment),
        after.classes == before.classes,
        after.instances == before.instances,
        after.stack@.len() <= before.stack@.len(),
        forall|s: int| 0 <= s < after.stack@.len() ==> after.stack@[s] == before.stack@[s],
        result_of(after.control) == Some(r),
    ensures
        sound(after),
{
    lemma_grown(before, after);
    let hb = heap_of(before);
    let ha = heap_of(after);
    lemma_refers_grown(receiver@, hb, ha);
    assert forall|k: DefaultKey| after.environment.frames().dom().contains(k) implies #[trigger]
        frame_kept(before, after, k) by {
        if !before.environment.frames().dom().contains(k) {
            let bindings = after.environment.frames()[k].bindings@;
            assert(bindings.len() == 1);
            assert(bindings[0].1 == receiver);
        }
    }
    assert forall|c: int| 0 <= c < after.classes@.len() implies #[trigger] class_kept(
        before,
        after,
        c,
    ) by {}
    assert forall|i: int| 0 <= i < after.instances@.len() implies #[trigger] instance_kept(
        before,
        after,
        i,
    ) by {}
    assert forall|s: int| 0 <= s < after.stack@.len() implies #[trigger] kont_kept(
        before,
        after,
        s,
    ) by {}
    lemma_sound_from(before, after);
}

/// Every value of a table refers to what there is where all but the last
/// refer to what there was, and the last refers to what there is.
pub proof fn lemma_pushed_refer<'a>(
    was: Seq<(String, SoxObject<'a>)>,
    now: Seq<(String, SoxObject<'a>)>,
    earlier: Heap<'a>,
    later: Heap<'a>,
)
    requires
        all_refer(was, earlier),
        grown(earlier, later),
        now.len() == was.len() + 1,
        forall|i: int| 0 <= i < was.len() ==> now[i] == was[i],
        refers(now.last().1@, later),
    ensures
        all_refer(now, later),
{
    lemma_all_refer_grown(was, earlier, later);
    assert forall|i: int| 0 <= i < now.len() implies refers((#[trigger] now[i]).1@, later) by {
        if i < was.len() {
            assert(now[i] == was[i]);
        }
    }
}

/// Every value of a table refers to what there is where one value was
/// replaced by one that refers to what there is.
pub proof fn lemma_updated_refer<'a>(
    was: Seq<(String, SoxObject<'a>)>,
    now: Seq<(String, SoxObject<'a>)>,
    at: int,
    earlier: Heap<'a>,
    later: Heap<'a>,
)
    requires
        all_refer(was, earlier),
        grown(earlier, later),
        0 <= at < was.len(),
        now == was.update(at, now[at]),
        refers(now[at].1@, later),
    ensures
        all_refer(now, later),
{
    lemma_all_refer_grown(was, earlier, later);
    assert forall|i: int| 0 <= i < now.len() implies refers((#[trigger] now[i]).1@, later) by {
        if i != at {
            assert(now[i] == was[i]);
        }
    }
}

/// The first step of a statement keeps a sound machine sound.
pub proof fn lemma_sound_executed<'a>(before: Interpreter<'a>, stmt: &'a Stmt, after: Interpreter<'a>)
    requires
        sound(before),
        before.control is Idle,
        after.environment.keeps_captured(&before.environment),
        executed(before, stmt, after),
    ensures
        sound(after),
{
    let hb = heap_of(before);
    let ha = heap_of(after);
    match *stmt {
        Stmt::Var { name, initializer: None } => {
            lemma_grown(before, after);
            let active = before.environment.active;
            assert forall|k: DefaultKey|
                after.environment.frames().dom().contains(k) implies #[trigger] frame_kept(
                before,
                after,
                k,
            ) by {
                if k == active && before.environment.frames().dom().contains(active) {
                    lemma_pushed_refer(
                        before.environment.frames()[k].bindings@,
                        after.environment.frames()[k].bindings@,
                        hb,
                        ha,
                    );
                }
            }
            assert(all_kept(before, after));
            lemma_sound_from(before, after);
        },
        Stmt::Block(statements) => {
            lemma_sound_block(before, &statements, after);
        },
        Stmt::Function { .. } => {
            lemma_sound_function(before, stmt, after);
        },
        Stmt::Class { name, superclass: None, methods } => {
            lemma_sound_class(before, stmt, None, after);
        },
        _ => {
            lemma_sound_same_heap(before, after, before.stack@.len() as int);
        },
    }
}

/// Entering a block keeps a sound machine sound.
pub proof fn lemma_sound_block<'a>(
    before: Interpreter<'a>,
    statements: &'a Vec<Stmt>,
    after: Interpreter<'a>,
)
    requires
        sound(before),
        before.control is Idle,
        after.environment.keeps_captured(&before.environment),
        block_entered(before, before.stack@, statements, None, after),
    ensures
        sound(after),
{
    lemma_grown(before, after);
    assert(all_kept(before, after));
    lemma_sound_from(before, after);
}

/// Declaring a function keeps a sound machine sound: the function value
/// refers to the active frame, which is marked as captured.
pub proof fn lemma_sound_function<'a>(before: Interpreter<'a>, stmt: &'a Stmt, after: Interpreter<'a>)
    requires
        sound(before),
        before.control is Idle,
        after.environment.keeps_captured(&before.environment),
        after.stack == before.stack,
        function_declared(before, stmt, after),
    ensures
        sound(after),
{
    lemma_grown(before, after);
    let hb = heap_of(before);
    let ha = heap_of(after);
    let active = before.environment.active;
    assert forall|k: DefaultKey| after.environment.frames().dom().contains(k) implies #[trigger]
        frame_kept(before, after, k) by {
        if k == active && before.environment.frames().dom().contains(active) && stmt is Function {
            let now = after.environment.frames()[k].bindings@;
            let was = before.environment.frames()[k].bindings@;
            assert forall|i: int| 0 <= i < now.len() - 1 implies now[i] == was[i] by {
                assert(now[i] == now.drop_last()[i]);
            }
            lemma_pushed_refer(
                before.environment.frames()[k].bindings@,
                after.environment.frames()[k].bindings@,
                hb,
                ha,
            );
        }
    }
    assert(all_kept(before, after));
    lemma_sound_from(before, after);
}

/// Declaring a class keeps a sound machine sound: the methods refer to a
/// frame that is marked as captured, and the class's name is bound to a
/// class of the class table.
pub proof fn lemma_sound_class<'a>(
    before: Interpreter<'a>,
    stmt: &'a Stmt,
    superclass: Option<usize>,
    after: Interpreter<'a>,
)
    requires
        sound(before),
        superclass matches Some(c) ==> c < before.classes@.len(),
        after.environment.keeps_captured(&before.environment),
        after.stack@.len() <= before.stack@.len(),
        forall|s: int| 0 <= s < after.stack@.len() ==> after.stack@[s] == before.stack@[s],
        class_declared(before, stmt, superclass, after),
    ensures
        sound(after),
{
    let hb = heap_of(before);
    let ha = heap_of(after);
    let env = before.environment;
    let active = env.active;
    match *stmt {
        Stmt::Class { name, methods, .. } => {
            if !env.frames().dom().contains(active) {
                lemma_grown(before, after);
                assert(all_kept(before, after));
                lemma_sound_from(before, after);
            } else if superclass is Some && env.full() {
                lemma_grown(before, after);
                assert forall|k: DefaultKey|
                    after.environment.frames().dom().contains(k) implies #[trigger] frame_kept(
                    before,
                    after,
                    k,
                ) by {
                    if k == active {
                        lemma_pushed_refer(
                            env.frames()[k].bindings@,
                            after.environment.frames()[k].bindings@,
                            hb,
                            ha,
                        );
                    }
                }
                assert(all_kept(before, after));
                lemma_sound_from(before, after);
            } else {
                assert(after.classes@.len() == before.classes@.len() + 1);
                lemma_grown(before, after);
                let class = after.classes@.last();
                let was = env.frames()[active].bindings@;
                let named = was.push((name.lexeme, SoxObject::Nil(crate::builtins::none::SoxNone)));
                crate::table::lemma_position_push(
                    was,
                    (name.lexeme, SoxObject::Nil(crate::builtins::none::SoxNone)),
                    name.lexeme@,
                    0,
                );
                lemma_position(named, name.lexeme@, 0);
                let now = after.environment.frames()[active].bindings@;
                lemma_pushed_refer(was, named, hb, ha);
                let at = position(named, name.lexeme@, 0)->0;
                lemma_updated_refer(named, now, at, ha, ha);
                assert forall|k: DefaultKey|
                    after.environment.frames().dom().contains(k) implies #[trigger] frame_kept(
                    before,
                    after,
                    k,
                ) by {
                    if k != active && !env.frames().dom().contains(k) {
                        let held = after.environment.frames()[k].bindings@;
                        assert(held.len() == 1);
                    }
                }
                assert forall|c: int| 0 <= c < after.classes@.len() implies #[trigger] class_kept(
                    before,
                    after,
                    c,
                ) by {
                    if c < before.classes@.len() {
                        assert(after.classes@[c] == after.classes@.drop_last()[c]);
                    } else {
                        assert(after.classes@[c] == class);
                        assert forall|i: int| 0 <= i < class.attributes@.len() implies refers(
                            (#[trigger] class.attributes@[i]).1@,
                            ha,
                        ) by {}
                    }
                }
                assert(all_kept(before, after));
                lemma_sound_from(before, after);
            }
        },
        _ => {
            lemma_grown(before, after);
            assert(all_kept(before, after));
            lemma_sound_from(before, after);
        },
    }
}

/// The method that a class of a sound machine answers to refers to what
/// there is.
pub proof fn lemma_method_refers<'a>(m: Interpreter<'a>, class: int, name: Seq<char>)
    requires
        sound(m),
    ensures
        method_of(m.classes@, class, name) matches Some(v) ==> refers(v@, heap_of(m)),
    decreases class,
{
    if 0 <= class < m.classes@.len() {
        let attributes = m.classes@[class].attributes@;
        lemma_position(attributes, name, 0);
        assert(all_refer(attributes, heap_of(m)));
        match position(attributes, name, 0) {
            Some(_) => {},
            None => match m.classes@[class].base {
                Some(b) => {
                    if b < class {
                        lemma_method_refers(m, b as int, name);
                    }
                },
                None => {},
            },
        }
    }
}

/// The first step of an expression keeps a sound machine sound.
pub proof fn lemma_sound_evaluated<'a>(
    before: Interpreter<'a>,
    expr: &'a Expr,
    after: Interpreter<'a>,
    action: Action<'a>,
)
    requires
        sound(before),
        before.control is Idle,
        after.environment.keeps_captured(&before.environment),
        evaluated(before, expr, after, action),
    ensures
        sound(after),
{
    match *expr {
        Expr::Variable { name } => {
            lemma_looks_up_refers(before, name, result_of(after.control)->0);
            lemma_sound_same_heap(before, after, before.stack@.len() as int);
        },
        Expr::This { keyword } => {
            lemma_looks_up_refers(before, keyword, result_of(after.control)->0);
            lemma_sound_same_heap(before, after, before.stack@.len() as int);
        },
        Expr::Super { keyword, method } => {
            lemma_sound_super(before, expr, after);
        },
        _ => {
            lemma_sound_same_heap(before, after, before.stack@.len() as int);
        },
    }
}

/// Reading `super.method` keeps a sound machine sound.
pub proof fn lemma_sound_super<'a>(before: Interpreter<'a>, expr: &'a Expr, after: Interpreter<'a>)
    requires
        sound(before),
        before.control is Idle,
        after.environment.keeps_captured(&before.environment),
        after.stack == before.stack,
        super_read(before, expr, after),
    ensures
        sound(after),
{
    let env = before.environment;
    match *expr {
        Expr::Super { keyword, method } => match before.placement(keyword) {
            Some((depth, index)) => {
                if depth > 0 {
                    match env.value_at(depth, index) {
                        Some(class) => match env.value_at((depth - 1) as usize, 0) {
                            Some(receiver) => {
                                lemma_read_refers(
                                    before,
                                    (keyword.lexeme, (depth - 1) as usize, 0),
                                    Ok(receiver),
                                );
                                match class {
                                    SoxObject::Type(c) => {
                                        let found = method_of(
                                            before.classes@,
                                            c as int,
                                            method.lexeme@,
                                        );
                                        if found is Some && found->0 is Function {
                                            lemma_sound_bound(
                                                before,
                                                found->0@->Function_0,
                                                receiver,
                                                after,
                                                result_of(after.control)->0,
                                            );
                                            return ;
                                        }
                                    },
                                    _ => {},
                                }
                            },
                            None => {},
                        },
                        None => {},
                    }
                }
            },
            None => {},
        },
        _ => {},
    }
    lemma_sound_same_heap(before, after, before.stack@.len() as int);
}

/// Starting a call of a function keeps a sound machine sound.
///
/// `base` is a sound machine with the frames before the call; `stack` is
/// what was left to do, and holds values that refer to what there is, as do
/// what is called and the arguments.
pub proof fn lemma_sound_call<'a>(
    base: Interpreter<'a>,
    stack: Seq<Kont<'a>>,
    after: Interpreter<'a>,
    fo: SoxObject<'a>,
    args: Seq<SoxObject<'a>>,
)
    requires
        sound(base),
        forall|s: int| 0 <= s < stack.len() ==> kont_refers(#[trigger] stack[s], heap_of(base)),
        refers(fo@, heap_of(base)),
        forall|i: int| 0 <= i < args.len() ==> refers((#[trigger] args[i])@, heap_of(base)),
        after.environment.keeps_captured(&base.environment),
        after.classes == base.classes,
        after.instances == base.instances,
        call_effect(base.environment, stack, after, fo, args),
    ensures
        sound(after),
{
    lemma_grown(base, after);
    let hb = heap_of(base);
    let ha = heap_of(after);
    let env = base.environment;
    assert forall|s: int| 0 <= s < stack.len() implies kont_refers(#[trigger] stack[s], ha) by {
        lemma_kont_refers_grown(stack[s], hb, ha);
    }
    assert forall|c: int| 0 <= c < after.classes@.len() implies #[trigger] class_kept(
        base,
        after,
        c,
    ) by {}
    assert forall|i: int| 0 <= i < after.instances@.len() implies #[trigger] instance_kept(
        base,
        after,
        i,
    ) by {}
    if fo is Function {
        let f = fo@->Function_0;
        {
            if args.len() == f.arity && *f.declaration is Function && !(f.is_initializer
                && receiver_of(env, f) is None) && !env.full() {
                assert(call_started(stack, env.active, env, after, f, args));
                let frame = after.environment.active;
                let bound = after.environment.frames()[frame].bindings@;
                assert forall|i: int| 0 <= i < bound.len() implies refers(
                    (#[trigger] bound[i]).1@,
                    ha,
                ) by {
                    assert(bound[i].1 == args[i]);
                    lemma_refers_grown(args[i]@, hb, ha);
                }
                assert forall|k: DefaultKey|
                    after.environment.frames().dom().contains(k) implies #[trigger] frame_kept(
                    base,
                    after,
                    k,
                ) by {}
                if f.is_initializer {
                    lemma_find_up_held(
                        env.frames(),
                        f.environment_ref,
                        "this"@,
                        env.frames().dom().len(),
                    );
                    let found = find_up(
                        env.frames(),
                        f.environment_ref,
                        "this"@,
                        env.frames().dom().len(),
                    )->0;
                    assert(all_refer(env.frames()[found.0].bindings@, hb));
                    lemma_refers_grown(env.frames()[found.0].bindings@[found.1].1@, hb, ha);
                }
                assert forall|s: int| 0 <= s < after.stack@.len() implies #[trigger] kont_kept(
                    base,
                    after,
                    s,
                ) by {
                    if s < stack.len() {
                        assert(after.stack@[s] == after.stack@.subrange(0, stack.len() as int)[s]);
                    }
                }
                lemma_sound_from(base, after);
                return ;
            }
        }
    }
    assert forall|k: DefaultKey| after.environment.frames().dom().contains(k) implies #[trigger]
        frame_kept(base, after, k) by {}
    assert forall|s: int| 0 <= s < after.stack@.len() implies #[trigger] kont_kept(base, after, s) by {}
    lemma_sound_from(base, after);
}

/// Calling a class keeps a sound machine sound.
///
/// `stack` is what was left to do, and holds values that refer to what there
/// is, as do what is called and the arguments.
pub proof fn lemma_sound_type_call<'a>(
    before: Interpreter<'a>,
    stack: Seq<Kont<'a>>,
    after: Interpreter<'a>,
    fo: SoxObject<'a>,
    args: Seq<SoxObject<'a>>,
)
    requires
        sound(before),
        forall|s: int| 0 <= s < stack.len() ==> kont_refers(#[trigger] stack[s], heap_of(before)),
        forall|i: int| 0 <= i < args.len() ==> refers((#[trigger] args[i])@, heap_of(before)),
        after.environment.keeps_captured(&before.environment),
        type_call_effect(before, stack, after, fo, args),
    ensures
        sound(after),
{
    let hb = heap_of(before);
    let ha = heap_of(after);
    if fo is Type && fo->Type_0 < before.classes@.len() {
        let c = fo->Type_0;
        if args.len() == crate::builtins::types::arity_of(before.classes@, c as int) {
            lemma_grown(before, after);
            let instance = SoxObject::<'a>::TypeInstance(before.instances@.len() as usize);
            let init = method_of(before.classes@, c as int, "init"@);
            if init is Some && init->0 is Function && !before.environment.full() {
                let f = init->0@->Function_0;
                assert(init_called(before.environment, stack, after, f, instance, args));
                let (mid, bound) = choose|mid: crate::environment::Environment<'a>, bound: SoxObject<'a>|
                    {
                        &&& #[trigger] f.binds(
                            instance,
                            &before.environment,
                            &mid,
                            Ok::<SoxObject<'a>, RuntimeError>(bound),
                        )
                        &&& mid.active == before.environment.active
                        &&& call_effect(
                            mid,
                            stack.push(Kont::Construct { instance }),
                            after,
                            bound,
                            args,
                        )
                    };
                let base = Interpreter {
                    environment: mid,
                    instances: after.instances,
                    control: Control::Idle,
                    ..before
                };
                let hm = heap_of(base);
                assert(grown(hb, hm));
                assert forall|k: DefaultKey|
                    base.environment.frames().dom().contains(k) implies #[trigger] frame_kept(
                    before,
                    base,
                    k,
                ) by {
                    if !before.environment.frames().dom().contains(k) {
                        let held = base.environment.frames()[k].bindings@;
                        assert(held.len() == 1);
                        assert(held[0].1 == instance);
                    }
                }
                assert forall|i: int| 0 <= i < base.instances@.len() implies #[trigger]
                    instance_kept(before, base, i) by {
                    if i < before.instances@.len() {
                        assert(base.instances@[i] == base.instances@.drop_last()[i]);
                    }
                }
                assert forall|x: int| 0 <= x < base.classes@.len() implies #[trigger] class_kept(
                    before,
                    base,
                    x,
                ) by {}
                assert forall|s: int| 0 <= s < base.stack@.len() implies #[trigger] kont_kept(
                    before,
                    base,
                    s,
                ) by {}
                lemma_sound_from(before, base);
                let longer = stack.push(Kont::Construct { instance });
                assert forall|s: int| 0 <= s < longer.len() implies kont_refers(
                    #[trigger] longer[s],
                    hm,
                ) by {
                    if s < stack.len() {
                        lemma_kont_refers_grown(stack[s], hb, hm);
                    }
                }
                assert forall|i: int| 0 <= i < args.len() implies refers(
                    (#[trigger] args[i])@,
                    hm,
                ) by {
                    lemma_refers_grown(args[i]@, hb, hm);
                }
                lemma_sound_call(base, longer, after, bound, args);
                return ;
            }
            assert forall|i: int| 0 <= i < after.instances@.len() implies #[trigger] instance_kept(
                before,
                after,
                i,
            ) by {
                if i < before.instances@.len() {
                    assert(after.instances@[i] == after.instances@.drop_last()[i]);
                }
            }
            lemma_sound_rest(before, stack, after);
            return ;
        }
    }
    lemma_grown(before, after);
    assert forall|i: int| 0 <= i < after.instances@.len() implies #[trigger] instance_kept(
        before,
        after,
        i,
    ) by {}
    lemma_sound_rest(before, stack, after);
}

/// A machine is sound that comes from a sound machine by growing the heap,
/// where the frames and the classes are kept, the instances are kept, the
/// stack is `stack`, which holds values that refer to what there was, and
/// the control holds a value that refers to what there is.
pub proof fn lemma_sound_rest<'a>(before: Interpreter<'a>, stack: Seq<Kont<'a>>, after: Interpreter<'a>)
    requires
        sound(before),
        grown(heap_of(before), heap_of(after)),
        forall|s: int| 0 <= s < stack.len() ==> kont_refers(#[trigger] stack[s], heap_of(before)),
        after.stack@ == stack,
        after.environment.unchanged(&before.environment),
        after.classes == before.classes,
        forall|i: int| 0 <= i < after.instances@.len() ==> #[trigger] instance_kept(before, after, i),
        control_refers(after.control, heap_of(after)),
    ensures
        sound(after),
{
    assert forall|k: DefaultKey| after.environment.frames().dom().contains(k) implies #[trigger]
        frame_kept(before, after, k) by {}
    assert forall|c: int| 0 <= c < after.classes@.len() implies #[trigger] class_kept(
        before,
        after,
        c,
    ) by {}
    assert forall|s: int| 0 <= s < after.stack@.len() implies #[trigger] kont_kept(
        before,
        after,
        s,
    ) by {
        lemma_kont_refers_grown(stack[s], heap_of(before), heap_of(after));
    }
    lemma_sound_from(before, after);
}

/// Starting a call keeps a sound machine sound.
pub proof fn lemma_sound_invoked<'a>(
    before: Interpreter<'a>,
    stack: Seq<Kont<'a>>,
    callee: SoxObject<'a>,
    args: Seq<SoxObject<'a>>,
    after: Interpreter<'a>,
)
    requires
        sound(before),
        forall|s: int| 0 <= s < stack.len() ==> kont_refers(#[trigger] stack[s], heap_of(before)),
        refers(callee@, heap_of(before)),
        forall|i: int| 0 <= i < args.len() ==> refers((#[trigger] args[i])@, heap_of(before)),
        after.environment.keeps_captured(&before.environment),
        invoked(before, stack, callee, args, after),
    ensures
        sound(after),
{
    if callee is Function {
        lemma_sound_call(before, stack, after, callee, args);
    } else if callee is Type {
        lemma_sound_type_call(before, stack, after, callee, args);
    } else {
        lemma_grown(before, after);
        assert forall|i: int| 0 <= i < after.instances@.len() implies #[trigger] instance_kept(
            before,
            after,
            i,
        ) by {}
        lemma_sound_rest(before, stack, after);
    }
}

/// Handing a value to the continuation on top of the stack keeps a sound
/// machine sound, where the value refers to what there is.
pub proof fn lemma_sound_resumed<'a>(
    before: Interpreter<'a>,
    value: SoxObject<'a>,
    after: Interpreter<'a>,
    action: Action<'a>,
)
    requires
        sound(before),
        before.control is Idle,
        refers(value@, heap_of(before)),
        after.environment.keeps_captured(&before.environment),
        resumed(before, value, after, action),
    ensures
        sound(after),
{
    let hb = heap_of(before);
    let ha = heap_of(after);
    if before.stack@.len() == 0 {
        lemma_sound_same_heap(before, after, 0);
        return ;
    }
    let rest = before.stack@.drop_last();
    let top = before.stack@.last();
    assert(kont_refers(top, hb));
    assert forall|s: int| 0 <= s < rest.len() implies kont_refers(#[trigger] rest[s], hb) by {
        assert(rest[s] == before.stack@[s]);
    }
    match top {
        Kont::Block { statements, next, .. } => {
            if next < statements@.len() {
                lemma_sound_same_heap(before, after, rest.len() as int);
            } else {
                lemma_grown(before, after);
                assert(all_kept(before, after));
                lemma_sound_from(before, after);
            }
        },
        Kont::Call { restore, this } => {
            lemma_grown(before, after);
            assert(all_kept(before, after));
            lemma_sound_from(before, after);
        },
        Kont::Define { name } => {
            lemma_grown(before, after);
            let active = before.environment.active;
            assert forall|k: DefaultKey|
                after.environment.frames().dom().contains(k) implies #[trigger] frame_kept(
                before,
                after,
                k,
            ) by {
                if k == active && before.environment.frames().dom().contains(active) {
                    lemma_pushed_refer(
                        before.environment.frames()[k].bindings@,
                        after.environment.frames()[k].bindings@,
                        hb,
                        ha,
                    );
                }
            }
            assert(all_kept(before, after));
            lemma_sound_from(before, after);
        },
        Kont::Superclass { declaration } => {
            if value is Type {
                lemma_sound_class(before, declaration, Some(value->Type_0), after);
            } else {
                lemma_sound_same_heap(before, after, rest.len() as int);
            }
        },
        Kont::Assign { name } => {
            lemma_sound_assigned(before, *name, value, after);
        },
        Kont::BinaryApply { operator, left } => {
            lemma_sound_same_heap(before, after, rest.len() as int);
        },
        Kont::Callee { arguments } => {
            if arguments@.len() == 0 {
                lemma_sound_invoked(before, rest, value, Seq::empty(), after);
            } else {
                assert forall|s: int| 0 <= s < rest.len() implies after.stack@[s]
                    == before.stack@[s] by {
                    assert(after.stack@[s] == after.stack@.drop_last()[s]);
                }
                assert forall|s: int| rest.len() <= s < after.stack@.len() implies kont_refers(
                    #[trigger] after.stack@[s],
                    ha,
                ) by {
                    assert(after.stack@[s] == after.stack@.last());
                }
                lemma_sound_same_heap(before, after, rest.len() as int);
            }
        },
        Kont::Arguments { callee, arguments, values } => {
            let all = values@.push(value);
            assert forall|i: int| 0 <= i < all.len() implies refers((#[trigger] all[i])@, hb) by {
                if i < values@.len() {
                    assert(all[i] == values@[i]);
                }
            }
            if values@.len() + 1 >= arguments@.len() {
                lemma_sound_invoked(before, rest, callee, all, after);
            } else {
                assert(after.stack@.last()->values@ == all);
                assert forall|s: int| rest.len() <= s < after.stack@.len() implies kont_refers(
                    #[trigger] after.stack@[s],
                    ha,
                ) by {
                    assert(after.stack@[s] == after.stack@.last());
                }
                assert forall|s: int| 0 <= s < rest.len() implies after.stack@[s]
                    == before.stack@[s] by {
                    assert(after.stack@[s] == after.stack@.drop_last()[s]);
                }
                lemma_sound_same_heap(before, after, rest.len() as int);
            }
        },
        Kont::GetProperty { name } => {
            if value is TypeInstance {
                lemma_sound_property(before, value->TypeInstance_0, name.lexeme@, after);
            } else {
                lemma_sound_same_heap(before, after, rest.len() as int);
            }
        },
        Kont::SetValue { instance, name } => {
            lemma_grown(before, after);
            assert forall|i: int| 0 <= i < after.instances@.len() implies #[trigger] instance_kept(
                before,
                after,
                i,
            ) by {
                if i == instance && instance < before.instances@.len() {
                    let was = before.instances@[i].fields@;
                    let now = after.instances@[i].fields@;
                    lemma_position(was, name.lexeme@, 0);
                    match position(was, name.lexeme@, 0) {
                        Some(at) => {
                            lemma_updated_refer(was, now, at, hb, ha);
                        },
                        None => {
                            assert forall|j: int| 0 <= j < was.len() implies now[j] == was[j] by {
                                assert(now[j] == now.drop_last()[j]);
                            }
                            lemma_pushed_refer(was, now, hb, ha);
                        },
                    }
                }
            }
            assert(all_kept(before, after));
            lemma_sound_from(before, after);
        },
        _ => {
            lemma_sound_same_heap(before, after, rest.len() as int);
        },
    }
}

/// Assigning to a variable keeps a sound machine sound, where the value
/// refers to what there is.
pub proof fn lemma_sound_assigned<'a>(
    before: Interpreter<'a>,
    name: Token,
    value: SoxObject<'a>,
    after: Interpreter<'a>,
)
    requires
        sound(before),
        before.stack@.len() > 0,
        refers(value@, heap_of(before)),
        after.environment.keeps_captured(&before.environment),
        after.stack@ == before.stack@.drop_last(),
        after.same_tables(&before),
        match after.control {
            Control::Deliver(v) => v == value && after.assigns(
                &before,
                name,
                value,
                Ok::<(), RuntimeError>(()),
            ),
            Control::Unwind(Exception::Failure(e)) => after.assigns(
                &before,
                name,
                value,
                Err::<(), RuntimeError>(e),
            ),
            _ => false,
        },
    ensures
        sound(after),
{
    lemma_grown(before, after);
    let hb = heap_of(before);
    let ha = heap_of(after);
    let was = before.environment.frames();
    let now = after.environment.frames();
    lemma_refers_grown(value@, hb, ha);
    match before.placement(name) {
        Some((depth, index)) => {
            lemma_ancestor_held(was, before.environment.active, depth as nat);
            assert forall|k: DefaultKey| now.dom().contains(k) implies #[trigger] frame_kept(
                before,
                after,
                k,
            ) by {
                if was.dom().contains(k) && now[k].bindings != was[k].bindings {
                    lemma_updated_refer(was[k].bindings@, now[k].bindings@, index as int, hb, ha);
                }
            }
        },
        None => {
            let global = before.environment.global;
            if was.dom().contains(global) {
                lemma_position(was[global].bindings@, name.lexeme@, 0);
            }
            assert forall|k: DefaultKey| now.dom().contains(k) implies #[trigger] frame_kept(
                before,
                after,
                k,
            ) by {
                if was.dom().contains(k) && now[k].bindings != was[k].bindings {
                    let at = position(was[global].bindings@, name.lexeme@, 0)->0;
                    lemma_updated_refer(was[k].bindings@, now[k].bindings@, at, hb, ha);
                }
            }
        },
    }
    assert(all_kept(before, after));
    lemma_sound_from(before, after);
}

/// Reading a property keeps a sound machine sound.
pub proof fn lemma_sound_property<'a>(
    before: Interpreter<'a>,
    inst: usize,
    name: Seq<char>,
    after: Interpreter<'a>,
)
    requires
        sound(before),
        before.stack@.len() > 0,
        inst < before.instances@.len(),
        after.environment.keeps_captured(&before.environment),
        after.stack@ == before.stack@.drop_last(),
        after.same_tables(&before),
        result_of(after.control) is Some,
        property_read(before, inst, name, after.environment, result_of(after.control)->0),
    ensures
        sound(after),
{
    let hb = heap_of(before);
    let fields = before.instances@[inst as int].fields@;
    lemma_position(fields, name, 0);
    assert(all_refer(fields, hb));
    match position(fields, name, 0) {
        Some(i) => {
            lemma_grown(before, after);
            assert(all_kept(before, after));
            lemma_sound_from(before, after);
        },
        None => {
            let found = method_of(before.classes@, before.instances@[inst as int].typ as int, name);
            if found is Some && found->0 is Function {
                lemma_sound_bound(
                    before,
                    found->0@->Function_0,
                    SoxObject::TypeInstance(inst),
                    after,
                    result_of(after.control)->0,
                );
            } else {
                lemma_grown(before, after);
                assert(all_kept(before, after));
                lemma_sound_from(before, after);
            }
        },
    }
}

/// A step keeps a sound machine sound: every value in the machine goes on
/// referring to what there is. In particular, the frame that a function
/// value captured is there for as long as the value is.
pub proof fn lemma_sound_step<'a>(
    before: Interpreter<'a>,
    reply: Option<FloatReply>,
    after: Interpreter<'a>,
    action: Action<'a>,
)
    requires
        sound(before),
        stepped(before, reply, after, action),
    ensures
        sound(after),
{
    let idle = Interpreter { control: Control::Idle, ..before };
    assert(heap_of(idle) == heap_of(before));
    assert(sound(idle));
    match before.control {
        Control::Idle => {},
        Control::Execute(stmt) => {
            lemma_sound_executed(idle, stmt, after);
        },
        Control::Evaluate(expr) => {
            lemma_sound_evaluated(idle, expr, after, action);
        },
        Control::Deliver(value) => {
            lemma_sound_resumed(idle, value, after, action);
        },
        Control::Unwind(exception) => {
            lemma_sound_unwound(idle, exception, after, action);
        },
        Control::Await(expect) => {
            lemma_sound_answered(idle, expect, reply, after, action);
        },
    }
}

/// Any number of steps keeps a sound machine sound.
pub proof fn lemma_sound_steps<'a>(
    before: Interpreter<'a>,
    reply: Option<FloatReply>,
    steps: nat,
    after: Interpreter<'a>,
    action: Action<'a>,
)
    requires
        sound(before),
        after_steps(before, reply, steps, after, action),
    ensures
        sound(after),
    decreases steps,
{
    if steps == 1 {
        lemma_sound_step(before, reply, after, action);
    } else if steps > 1 {
        let mid = choose|mid: Interpreter<'a>|
            #[trigger] stepped(before, reply, mid, Action::Continue) && after_steps(
                mid,
                None,
                (steps - 1) as nat,
                after,
                action,
            );
        lemma_sound_step(before, reply, mid, Action::Continue);
        lemma_sound_steps(mid, None, (steps - 1) as nat, after, action);
    }
}

} // verus!
