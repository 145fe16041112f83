use sox::builtins::types::{SoxInstance, SoxType, SoxTypeSlot};
use sox::environment::{EnvKey, Environment, Namespace};
use sox::interpreter::Interpreter;
use sox::object::SoxObject;

fn whole(v: &SoxObject) -> i64 {
    v.as_int().unwrap().value
}

fn key(name: &str, depth: usize, index: usize) -> EnvKey {
    (name.to_string(), depth, index)
}

#[test]
fn test_new_environment() {
    let env = Environment::new();
    assert!((env.active == env.global));
    assert_eq!(env.frame_count(), 1);
    assert!(!env.is_full());
}

#[test]
fn test_define_and_indexed_lookup() {
    let mut env = Environment::new();
    assert!(env.define("a".to_string(), SoxObject::from_int(1)));
    assert!(env.define("b".to_string(), SoxObject::from_int(2)));
    assert_eq!(whole(&env.get(&key("a", 0, 0)).unwrap()), 1);
    assert_eq!(whole(&env.get(&key("b", 0, 1)).unwrap()), 2);
    // the index decides, not the name
    assert_eq!(whole(&env.get(&key("a", 0, 1)).unwrap()), 2);
    assert_eq!(
        env.get(&key("c", 0, 2)).err().unwrap().msg,
        "NameError: name 'c' is not defined"
    );
}

#[test]
fn test_lookup_climbs_exactly_depth_frames() {
    let mut env = Environment::new();
    let global = env.global;
    env.define("g".to_string(), SoxObject::from_int(0));
    let outer = env.new_local_env().unwrap();
    env.define("x".to_string(), SoxObject::from_int(1));
    let inner = env.new_local_env().unwrap();
    env.define("x".to_string(), SoxObject::from_int(2));
    assert!((env.active == inner));
    assert!((inner != outer));
    assert_eq!(whole(&env.get(&key("x", 0, 0)).unwrap()), 2);
    assert_eq!(whole(&env.get(&key("x", 1, 0)).unwrap()), 1);
    assert_eq!(whole(&env.get(&key("x", 2, 0)).unwrap()), 0);
    assert!(env.get(&key("x", 3, 0)).is_err());
    assert!((env.frame_at(0).unwrap() == inner));
    assert!((env.frame_at(1).unwrap() == outer));
    assert!((env.frame_at(2).unwrap() == global));
    assert!(env.frame_at(3).is_none());
}

#[test]
fn test_indexed_assignment() {
    let mut env = Environment::new();
    env.new_local_env().unwrap();
    env.define("a".to_string(), SoxObject::from_int(1));
    env.new_local_env().unwrap();
    env.define("b".to_string(), SoxObject::from_int(2));
    assert!(env.assign(&key("a", 1, 0), SoxObject::from_int(10)).is_ok());
    assert_eq!(whole(&env.get(&key("a", 1, 0)).unwrap()), 10);
    assert_eq!(whole(&env.get(&key("b", 0, 0)).unwrap()), 2);
    assert_eq!(
        env.assign(&key("c", 0, 1), SoxObject::from_int(3))
            .err()
            .unwrap()
            .msg,
        "NameError: name 'c' is not defined"
    );
    assert!(env.assign(&key("c", 5, 0), SoxObject::from_int(3)).is_err());
}

#[test]
fn test_global_lookup_and_assignment_by_name() {
    let mut env = Environment::new();
    env.define("a".to_string(), SoxObject::from_int(1));
    env.new_local_env().unwrap();
    env.define("a".to_string(), SoxObject::from_int(2));
    let a = "a".to_string();
    let b = "b".to_string();
    assert_eq!(whole(&env.get_from_global_scope(&a).unwrap()), 1);
    assert_eq!(
        env.get_from_global_scope(&b).err().unwrap().msg,
        "NameError: name 'b' is not defined"
    );
    assert!(env.assign_in_global(&a, SoxObject::from_int(5)).is_ok());
    assert_eq!(whole(&env.get_from_global_scope(&a).unwrap()), 5);
    assert_eq!(whole(&env.get(&key("a", 0, 0)).unwrap()), 2);
    assert_eq!(
        env.assign_in_global(&b, SoxObject::from_int(5))
            .err()
            .unwrap()
            .msg,
        "NameError: name 'b' is not defined"
    );
}

#[test]
fn test_lookup_by_name_up_the_chain() {
    let mut env = Environment::new();
    env.define("a".to_string(), SoxObject::from_int(1));
    env.define("b".to_string(), SoxObject::from_int(2));
    env.new_local_env().unwrap();
    env.define("a".to_string(), SoxObject::from_int(3));
    let a = "a".to_string();
    let b = "b".to_string();
    let c = "c".to_string();
    assert_eq!(whole(&env.find_and_get(&a).unwrap()), 3);
    assert_eq!(whole(&env.find_and_get(&b).unwrap()), 2);
    assert!(env.find_and_get(&c).is_err());
    assert!(env.find_and_assign(&b, SoxObject::from_int(20)).is_ok());
    assert!(env.find_and_assign(&a, SoxObject::from_int(30)).is_ok());
    assert!(env.find_and_assign(&c, SoxObject::from_int(40)).is_err());
    assert_eq!(whole(&env.find_and_get(&a).unwrap()), 30);
    assert_eq!(whole(&env.get_from_global_scope(&a).unwrap()), 1);
    assert_eq!(whole(&env.get_from_global_scope(&b).unwrap()), 20);
    let (frame, index) = env.locate(&b).unwrap();
    assert!((frame == env.global));
    assert_eq!(index, 1);
}

#[test]
fn test_pop_drops_a_frame_that_nothing_captured() {
    let mut env = Environment::new();
    let frame = env.new_local_env().unwrap();
    env.define("a".to_string(), SoxObject::from_int(1));
    assert_eq!(env.frame_count(), 2);
    assert!(env.pop());
    assert!((env.active == env.global));
    assert_eq!(env.frame_count(), 1);
    assert!(!env.define_at("b".to_string(), SoxObject::from_int(1), frame));
}

#[test]
fn test_pop_keeps_a_captured_frame_and_what_is_around_it() {
    let mut env = Environment::new();
    let outer = env.new_local_env().unwrap();
    let inner = env.new_local_env().unwrap();
    env.define("a".to_string(), SoxObject::from_int(1));
    assert!(env.capture(inner));
    assert!(env.pop());
    assert!((env.active == outer));
    assert_eq!(env.frame_count(), 3);
    assert!(env.pop());
    assert!((env.active == env.global));
    assert_eq!(env.frame_count(), 3);
    // the captured frame can still be read from
    env.active = inner;
    assert_eq!(whole(&env.get(&key("a", 0, 0)).unwrap()), 1);
    assert!((env.frame_at(1).unwrap() == outer));
}

#[test]
fn test_the_global_frame_is_never_popped() {
    let mut env = Environment::new();
    env.define("a".to_string(), SoxObject::from_int(1));
    assert!(!env.pop());
    assert!((env.active == env.global));
    assert_eq!(env.frame_count(), 1);
    let a = "a".to_string();
    assert_eq!(whole(&env.get_from_global_scope(&a).unwrap()), 1);
    let global = env.global;
    assert!(!env.discard(global));
}

#[test]
fn test_frames_beside_the_active_chain() {
    let mut env = Environment::new();
    let global = env.global;
    let side = env.new_local_env_at(global).unwrap();
    assert!((env.active == global));
    assert!(env.define_at("this".to_string(), SoxObject::from_int(7), side));
    let unused = env.new_local_env_unused().unwrap();
    assert_eq!(env.frame_count(), 3);
    assert!(env.discard(unused));
    assert!(!env.discard(unused));
    assert_eq!(env.frame_count(), 2);
    let mut own = Namespace::new();
    own.define("n".to_string(), SoxObject::from_int(3));
    assert_eq!(whole(&own.get(&key("n", 0, 0)).unwrap()), 3);
    assert!(own.assign(&key("n", 0, 0), SoxObject::from_int(4)).is_ok());
    assert!(own.assign(&key("n", 0, 1), SoxObject::from_int(4)).is_err());
    assert_eq!(whole(&own.get(&key("n", 0, 0)).unwrap()), 4);
    let stacked = env.stack_new_env(own).unwrap();
    env.active = stacked;
    assert_eq!(whole(&env.get(&key("n", 0, 0)).unwrap()), 4);
    assert!(env.get(&key("n", 1, 0)).is_err());
}

#[test]
fn test_method_lookup_in_a_class_table() {
    let mut classes: Vec<SoxType> = vec![];
    let slots = || SoxTypeSlot {
        call: None,
        methods: vec![],
    };
    classes.push(SoxType::new(
        "A",
        None,
        vec![],
        slots(),
        vec![
            ("a".to_string(), SoxObject::from_int(1)),
            ("b".to_string(), SoxObject::from_int(2)),
        ],
    ));
    classes.push(SoxType::new(
        "B",
        Some(0),
        vec![],
        slots(),
        vec![("b".to_string(), SoxObject::from_int(3))],
    ));
    classes.push(SoxType::new("C", Some(1), vec![], slots(), vec![]));
    let find = |class: usize, name: &str| {
        SoxType::find_method(&classes, class, &name.to_string()).map(|v| whole(&v))
    };
    assert_eq!(find(0, "a"), Some(1));
    assert_eq!(find(1, "a"), Some(1));
    assert_eq!(find(2, "a"), Some(1));
    assert_eq!(find(0, "b"), Some(2));
    assert_eq!(find(1, "b"), Some(3));
    assert_eq!(find(2, "b"), Some(3));
    assert_eq!(find(2, "c"), None);
    assert_eq!(find(3, "a"), None);
    assert_eq!(SoxType::arity(&classes, 2), 0);
    assert_eq!(classes[1].repr(), "<type 'B'>");
}

#[test]
fn test_instance_fields() {
    let mut instance = SoxInstance::new(0);
    let x = "x".to_string();
    let y = "y".to_string();
    assert!(instance.field(&x).is_none());
    instance.set(&x, SoxObject::from_int(1));
    instance.set(&y, SoxObject::from_int(2));
    instance.set(&x, SoxObject::from_int(3));
    assert_eq!(instance.fields.len(), 2);
    assert_eq!(whole(&instance.field(&x).unwrap()), 3);
    assert_eq!(whole(&instance.field(&y).unwrap()), 2);
}

#[test]
fn test_binding_a_method_makes_a_frame_with_this() {
    let program = sox::init::run("class C { m() { return this; } } let c = C();", true)
        .ok()
        .unwrap();
    let mut interpreter = Interpreter::new();
    interpreter._locals = program.locals;
    interpreter.interpret(&program.statements);
    while !matches!(
        interpreter.step(None),
        sox::interpreter::Action::Finished(_)
    ) {}
    let before = interpreter.environment.frame_count();
    let method = SoxType::find_method(&interpreter.classes, 0, &"m".to_string()).unwrap();
    let function = method.as_func().unwrap();
    let bound = function
        .val
        .bind(SoxObject::TypeInstance(0), &mut interpreter)
        .unwrap();
    assert_eq!(interpreter.environment.frame_count(), before + 1);
    let bound = bound.as_func().unwrap();
    assert!((bound.val.environment_ref != function.val.environment_ref));
    assert_eq!(bound.val.name, "m");
    interpreter.environment.active = bound.val.environment_ref;
    let this = interpreter.environment.get(&key("this", 0, 0)).unwrap();
    assert_eq!(this.as_class_instance(), Some(0));
    assert!((interpreter.environment.frame_at(1).unwrap() == function.val.environment_ref));
    assert_eq!(
        function
            .val
            .bind(SoxObject::from_int(1), &mut interpreter)
            .err()
            .unwrap()
            .msg,
        "Could not bind method to instance"
    );
}

#[test]
fn test_values_say_what_they_are() {
    let interpreter = Interpreter::new();
    let one = SoxObject::from_int(1);
    assert_eq!(
        one.sox_type(&interpreter).unwrap().name,
        Some("int".to_string())
    );
    assert!(matches!(
        one.repr(&interpreter),
        sox::interpreter::Rendered::Text(text) if text == "1"
    ));
    assert!(one.try_into_rust_bool(&interpreter));
    assert!(!SoxObject::none().try_into_rust_bool(&interpreter));
    assert!(!SoxObject::from_bool(false).try_into_rust_bool(&interpreter));
    assert!(SoxObject::from_string(String::new()).try_into_rust_bool(&interpreter));
    let half = sox::builtins::float::SoxFloat::new(0x3fe0_0000_0000_0000);
    assert_eq!(half.negated().value, 0xbfe0_0000_0000_0000);
    assert!(matches!(
        half.equals(&SoxObject::from_int(1)),
        sox::object::Outcome::Float(sox::builtins::float::FloatRequest::Compare { .. })
    ));
    assert!(matches!(
        half.equals(&SoxObject::none()),
        sox::object::Outcome::Value(SoxObject::Boolean(b)) if !b.value
    ));
    assert!(matches!(
        SoxObject::TypeInstance(3).sox_type(&interpreter),
        None
    ));
}

#[test]
fn test_leaving_a_frame() {
    let mut env = Environment::new();
    let global = env.global;
    let block = env.new_local_env().unwrap();
    env.define("a".to_string(), SoxObject::from_int(1));
    env.leave(block, global);
    assert!(env.active == global);
    assert_eq!(env.frame_count(), 1);
    let outer = env.new_local_env().unwrap();
    let inner = env.new_local_env().unwrap();
    assert!(env.capture(inner));
    env.leave(inner, outer);
    assert!(env.active == outer);
    assert_eq!(env.frame_count(), 3);
    env.leave(outer, global);
    assert!(env.active == global);
    assert_eq!(env.frame_count(), 3);
    env.leave(global, global);
    assert_eq!(env.frame_count(), 3);
    env.leave(block, global);
    assert_eq!(env.frame_count(), 3);
}
