use sox::builtins::float::{FloatReply, FloatRequest, Number, SoxFloat};
use sox::init::{run, RunError};
use sox::interpreter::{Action, Interpreter, Rendered};
use sox::object::SoxObject;
use sox::token_type::TokenType;

fn number(n: &Number) -> f64 {
    match n {
        Number::Int(i) => i.value as f64,
        Number::Float(x) => f64::from_bits(x.value),
    }
}

fn remainder(a: f64, b: f64) -> f64 {
    if b == 0.0 || a.is_infinite() || a.is_nan() || b.is_nan() {
        return f64::NAN;
    }
    if b.is_infinite() {
        return a;
    }
    let n = (a / b).round_ties_even();
    a - n * b
}

fn answer(request: &FloatRequest) -> FloatReply {
    match request {
        FloatRequest::Parse(text) => {
            FloatReply::Float(SoxFloat::new(text.parse::<f64>().unwrap().to_bits()))
        }
        FloatRequest::Arithmetic {
            operator,
            left,
            right,
        } => {
            let (a, b) = (number(left), number(right));
            let c = match operator {
                TokenType::Plus => a + b,
                TokenType::Minus => a - b,
                TokenType::Star => a * b,
                TokenType::Slash => a / b,
                _ => remainder(a, b),
            };
            FloatReply::Float(SoxFloat::new(c.to_bits()))
        }
        FloatRequest::Compare {
            operator,
            left,
            right,
        } => {
            let (a, b) = (number(left), number(right));
            FloatReply::Bool(match operator {
                TokenType::Less => a < b,
                TokenType::LessEqual => a <= b,
                TokenType::Greater => a > b,
                TokenType::GreaterEqual => a >= b,
                _ => a == b,
            })
        }
        FloatRequest::Render(x) => FloatReply::Text(f64::from_bits(x.value).to_string()),
    }
}

struct Outcome {
    lines: Vec<String>,
    error: Option<String>,
    last: Option<String>,
}

fn drive(interpreter: &mut Interpreter, lines: &mut Vec<String>) -> Result<String, String> {
    let mut reply = None;
    loop {
        match interpreter.step(reply.take()) {
            Action::Continue => {}
            Action::Print(line) => lines.push(line),
            Action::Float(request) => reply = Some(answer(&request)),
            Action::Finished(value) => {
                return Ok(match interpreter.repr(&value) {
                    Rendered::Text(text) => text,
                    Rendered::Float(x) => f64::from_bits(x.value).to_string(),
                })
            }
            Action::Failed(error) => return Err(error.msg),
        }
    }
}

fn execute(source: &str) -> Outcome {
    let program = match run(source, true) {
        Ok(program) => program,
        Err(RunError::Syntax(errors)) => {
            return Outcome {
                lines: vec![],
                error: Some(errors[0].repr()),
                last: None,
            }
        }
        Err(RunError::Resolve(error)) => {
            return Outcome {
                lines: vec![],
                error: Some(error.repr()),
                last: None,
            }
        }
    };
    let mut interpreter = Interpreter::new();
    interpreter._locals = program.locals;
    interpreter.interpret(&program.statements);
    let mut lines = vec![];
    match drive(&mut interpreter, &mut lines) {
        Ok(last) => {
            assert_eq!(interpreter.stack.len(), 0);
            assert!(interpreter.environment.active == interpreter.environment.global);
            Outcome {
                lines,
                error: None,
                last: Some(last),
            }
        }
        Err(error) => {
            assert_eq!(interpreter.stack.len(), 0);
            assert!(interpreter.environment.active == interpreter.environment.global);
            Outcome {
                lines,
                error: Some(error),
                last: None,
            }
        }
    }
}

fn output(source: &str) -> Vec<String> {
    let outcome = execute(source);
    assert_eq!(outcome.error, None);
    outcome.lines
}

fn failure(source: &str) -> String {
    execute(source).error.expect("the program should fail")
}

#[test]
fn test_arithmetic_and_print() {
    assert_eq!(output("print 1 + 2 * 3; print 7 / 2;"), vec!["7", "3.5"]);
}

#[test]
fn test_closures() {
    let source = r#"
def make() {
  let i = 0;
  def tick() { i = i + 1; return i; }
  return tick;
}
let t = make();
print t(); print t(); print t();
"#;
    assert_eq!(output(source), vec!["1", "2", "3"]);
}

#[test]
fn test_class_with_init_and_method() {
    let source = r#"
class C {
  init(x) { this.x = x; }
  get() { return this.x; }
}
let c = C(42);
print c.get();
"#;
    assert_eq!(output(source), vec!["42"]);
}

#[test]
fn test_inheritance_with_super() {
    let source = r#"
class A { hi() { return "A"; } }
class B: A { hi() { return super.hi() + "B"; } }
print B().hi();
"#;
    assert_eq!(output(source), vec!["AB"]);
}

#[test]
fn test_undefined_variable() {
    assert_eq!(
        failure("print undefined_name;"),
        "NameError: name 'undefined_name' is not defined"
    );
}

#[test]
fn test_top_level_return() {
    assert_eq!(failure("return 1;"), "Return not allowed at top-level code.");
}

#[test]
fn test_empty_source_prints_nothing() {
    let outcome = execute("");
    assert_eq!(outcome.lines.len(), 0);
    assert_eq!(outcome.error, None);
    assert_eq!(outcome.last, Some("None".to_string()));
}

#[test]
fn test_bare_return_gives_none() {
    assert_eq!(output("def f() { return; } print f();"), vec!["None"]);
    assert_eq!(output("def g() { } print g();"), vec!["None"]);
}

#[test]
fn test_return_in_init_gives_this() {
    let source = r#"
class C {
  init() { this.x = 1; return; }
}
let c = C();
print c.x;
print c.init().x;
"#;
    assert_eq!(output(source), vec!["1", "1"]);
}

#[test]
fn test_returning_a_value_from_init_is_rejected() {
    assert_eq!(
        failure("class C { init() { return 1; } }"),
        "Cannot return value from initializer."
    );
}

#[test]
fn test_none_condition_takes_the_else_branch() {
    let source = "let x = None; let a = 0; if (x) a = 1; else a = 2; print a;";
    assert_eq!(output(source), vec!["2"]);
}

#[test]
fn test_only_none_and_false_are_falsy() {
    let source = r#"
if (0) print "0"; else print "not 0";
if ("") print "empty"; else print "not empty";
if (0.0) print "0.0"; else print "not 0.0";
if (false) print "false"; else print "not false";
if (None) print "None"; else print "not None";
"#;
    assert_eq!(
        output(source),
        vec!["0", "empty", "0.0", "not false", "not None"]
    );
}

#[test]
fn test_the_same_program_prints_the_same_lines() {
    let source = r#"
def fib(n) { if (n < 2) return n; return fib(n - 1) + fib(n - 2); }
for (let i = 0; i < 10; i = i + 1) print fib(i) / 2;
"#;
    let first = output(source);
    let second = output(source);
    assert_eq!(first, second);
    assert_eq!(
        first,
        vec!["0", "0.5", "0.5", "1", "1.5", "2.5", "4", "6.5", "10.5", "17"]
    );
}

#[test]
fn test_integer_arithmetic() {
    assert_eq!(
        output("print 7 - 10; print 7 % 3; print -7 % 3; print 6 * 7; print -(3);"),
        vec!["-3", "1", "-1", "42", "-3"]
    );
}

#[test]
fn test_integer_results_out_of_range_are_errors() {
    assert_eq!(
        failure("print 9223372036854775807 + 1;"),
        "Integer result out of range"
    );
    assert_eq!(failure("print 1 % 0;"), "Integer result out of range");
    assert_eq!(
        failure("print 4611686018427387904 * 2;"),
        "Integer result out of range"
    );
}

#[test]
fn test_fractional_arithmetic() {
    assert_eq!(
        output("print 1.5 + 1; print 2 * 0.25; print 1 / 4; print -1.5; print 5.5 % 2; print 4 / 2;"),
        vec!["2.5", "0.5", "0.25", "-1.5", "-0.5", "2"]
    );
}

#[test]
fn test_comparison() {
    assert_eq!(
        output("print 1 < 2; print 2 <= 2; print 1 > 2; print 2 >= 3; print 1.5 < 2; print 2 > 1.5;"),
        vec!["true", "true", "false", "false", "true", "true"]
    );
}

#[test]
fn test_equality() {
    let source = r#"
print 1 == 1;
print 1 == 2;
print 1 != 2;
print 1 == 1.0;
print 1.5 == 1.5;
print 1.0 != 1;
print "a" == "a";
print "a" == "b";
print "1" == 1;
print None == None;
print None == false;
print true == true;
print true != false;
def f() {}
def g() {}
print f == f;
print f == g;
class C {}
print C == C;
"#;
    assert_eq!(
        output(source),
        vec![
            "true", "false", "true", "true", "true", "false", "true", "false", "false", "true",
            "false", "true", "true", "true", "false", "false"
        ]
    );
}

#[test]
fn test_functions_are_equal_in_the_same_frame_only() {
    let source = r#"
def make() { def inner() {} return inner; }
let a = make();
let b = make();
print a == a;
print a == b;
print a != b;
"#;
    assert_eq!(output(source), vec!["true", "false", "true"]);
}

#[test]
fn test_strings_concatenate() {
    assert_eq!(output("print \"foo\" + \"bar\";"), vec!["foobar"]);
}

#[test]
fn test_operand_errors() {
    assert_eq!(
        failure("print 1 + \"a\";"),
        "Operands must be two numbers or two strings."
    );
    assert_eq!(
        failure("print \"a\" - \"b\";"),
        "Operands must be two numbers or two strings"
    );
    assert_eq!(
        failure("print None * 2;"),
        "Arguments to the multiplication operator must both be numbers"
    );
    assert_eq!(
        failure("print 1 / \"a\";"),
        "Arguments to the division operator must both be numbers"
    );
    assert_eq!(
        failure("print 1 % true;"),
        "Arguments to the remainder operator must both be numbers"
    );
    assert_eq!(
        failure("print 1 < \"a\";"),
        "Arguments to the less than operator must both be numbers"
    );
    assert_eq!(
        failure("print 1 > \"a\";"),
        "Arguments to the greater than operator must both be numbers"
    );
    assert_eq!(
        failure("print 1 <= \"a\";"),
        "Arguments to the less than or equals operator must both be numbers"
    );
    assert_eq!(
        failure("print 1 >= \"a\";"),
        "Arguments to the greater than or equals operator must both be numbers"
    );
    assert_eq!(
        failure("print -\"a\";"),
        "The unary operator (-) can only be applied to a numeric value."
    );
}

#[test]
fn test_logical_operators_give_an_operand() {
    assert_eq!(
        output("print 1 or 2; print None or 2; print None and 2; print 1 and 2; print false or None;"),
        vec!["1", "2", "None", "2", "None"]
    );
}

#[test]
fn test_logical_operators_short_circuit() {
    let source = r#"
let a = 0;
true or (a = 1);
false and (a = 2);
print a;
false or (a = 3);
print a;
"#;
    assert_eq!(output(source), vec!["0", "3"]);
}

#[test]
fn test_operands_are_evaluated_left_to_right() {
    let source = r#"
let a = 1;
print (a = 5) - a;
let b = 1;
print b - (b = 5);
"#;
    assert_eq!(output(source), vec!["0", "-4"]);
}

#[test]
fn test_arguments_are_evaluated_left_to_right() {
    let source = r#"
let n = 0;
def next() { n = n + 1; return n; }
def show(a, b, c) { print a; print b; print c; }
show(next(), next(), next());
"#;
    assert_eq!(output(source), vec!["1", "2", "3"]);
}

#[test]
fn test_not() {
    assert_eq!(
        output("print !true; print !None; print !0; print !!\"a\";"),
        vec!["false", "true", "false", "true"]
    );
}

#[test]
fn test_while_and_for() {
    let source = r#"
let i = 0;
while (i < 3) { print i; i = i + 1; }
for (let j = 10; j > 7; j = j - 1) print j;
"#;
    assert_eq!(output(source), vec!["0", "1", "2", "10", "9", "8"]);
}

#[test]
fn test_shadowing_and_scopes() {
    let source = r#"
let a = "global";
{
  let a = "outer";
  {
    let a = "inner";
    print a;
  }
  print a;
}
print a;
"#;
    assert_eq!(output(source), vec!["inner", "outer", "global"]);
}

#[test]
fn test_closure_binds_statically() {
    let source = r#"
let a = "global";
{
  def show() { print a; }
  show();
  let a = "block";
  show();
}
"#;
    assert_eq!(output(source), vec!["global", "global"]);
}

#[test]
fn test_two_references_on_one_line_are_told_apart() {
    let source = "let a = 1; { let b = a; let a = 2; print a + b; }";
    assert_eq!(output(source), vec!["3"]);
}

#[test]
fn test_recursion() {
    let source = r#"
def fib(n) {
    if (n == 0 or n == 1) {
        return n;
    }
    return fib(n-1) + fib(n-2);
}
print fib(15);
"#;
    assert_eq!(output(source), vec!["610"]);
}

#[test]
fn test_return_unwinds_blocks_and_loops() {
    let source = r#"
def find(limit) {
  let i = 0;
  while (true) {
    {
      if (i == limit) { return i; }
    }
    i = i + 1;
  }
}
print find(3);
print find(0);
"#;
    assert_eq!(output(source), vec!["3", "0"]);
}

#[test]
fn test_runtime_error_in_nested_blocks_leaves_the_global_frame_active() {
    let source = r#"
def f() { { { print missing; } } }
{ f(); }
"#;
    assert_eq!(
        failure(source),
        "NameError: name 'missing' is not defined"
    );
}

#[test]
fn test_wrong_number_of_arguments() {
    assert_eq!(
        failure("def f(a, b) {} f(1);"),
        "Expected 2 arguments but got 1"
    );
    assert_eq!(
        failure("class C { init(a) {} } C();"),
        "Expected 1 arguments but got 0"
    );
    assert_eq!(failure("class D {} D(1);"), "Expected 0 arguments but got 1");
}

#[test]
fn test_calling_what_is_not_callable() {
    assert_eq!(failure("1();"), "int object is not callable");
    assert_eq!(failure("\"a\"();"), "string object is not callable");
    assert_eq!(failure("None();"), "none object is not callable");
    assert_eq!(failure("true();"), "bool object is not callable");
    assert_eq!(failure("1.5();"), "float object is not callable");
    assert_eq!(failure("class C {} C()();"), "C object is not callable");
}

#[test]
fn test_properties() {
    let source = r#"
class P {}
let p = P();
p.x = 1;
p.y = p.x + 1;
p.x = 10;
print p.x; print p.y;
print (p.z = 5);
"#;
    assert_eq!(output(source), vec!["10", "2", "5"]);
    assert_eq!(failure("class P {} print P().x;"), "Undefined property x");
    assert_eq!(
        failure("print 1.x;"),
        "Only class instances have attributes"
    );
    assert_eq!(
        failure("let a = 1; print a.x;"),
        "Only class instances have attributes"
    );
    assert_eq!(failure("let a = 1; a.x = 2;"), "Only instances have fields");
}

#[test]
fn test_instances_are_shared() {
    let source = r#"
class P {}
let p = P();
let q = p;
q.x = 1;
print p.x;
"#;
    assert_eq!(output(source), vec!["1"]);
}

#[test]
fn test_fields_shadow_methods() {
    let source = r#"
class C { m() { return "method"; } }
let c = C();
print c.m();
def f() { return "field"; }
c.m = f;
print c.m();
"#;
    assert_eq!(output(source), vec!["method", "field"]);
}

#[test]
fn test_bound_methods_remember_their_instance() {
    let source = r#"
class C {
  init(n) { this.n = n; }
  get() { return this.n; }
}
let m = C(7).get;
let other = C(8);
print m();
"#;
    assert_eq!(output(source), vec!["7"]);
}

#[test]
fn test_method_lookup_respects_inheritance() {
    let source = r#"
class A {
  a() { return "A.a"; }
  b() { return "A.b"; }
  c() { return "A.c"; }
}
class B: A {
  b() { return "B.b"; }
  c() { return "B.c"; }
}
class C: B {
  c() { return "C.c"; }
}
let x = C();
print x.a(); print x.b(); print x.c();
def a() { return "global a"; }
print x.a();
"#;
    assert_eq!(output(source), vec!["A.a", "B.b", "C.c", "A.a"]);
}

#[test]
fn test_inherited_init() {
    let source = r#"
class A { init(x) { this.x = x; } }
class B: A {}
print B(3).x;
"#;
    assert_eq!(output(source), vec!["3"]);
}

#[test]
fn test_super_in_a_deeper_chain() {
    let source = r#"
class A { name() { return "A"; } }
class B: A { name() { return super.name() + "B"; } }
class C: B { name() { return super.name() + "C"; } }
print C().name();
"#;
    assert_eq!(output(source), vec!["ABC"]);
}

#[test]
fn test_missing_super_method() {
    let source = r#"
class A {}
class B: A { f() { return super.g(); } }
B().f();
"#;
    assert_eq!(failure(source), "Undefined property g");
}

#[test]
fn test_superclass_must_be_a_class() {
    assert_eq!(
        failure("let A = 1; class B: A {}"),
        "Superclass must be a class"
    );
}

#[test]
fn test_how_values_are_shown() {
    let source = r#"
def f() {}
class C { m() {} }
print f;
print C;
print C();
print C().m;
print None;
print true;
print "text";
print 12;
print -12;
print 2.5;
"#;
    assert_eq!(
        output(source),
        vec![
            "<Function f>",
            "<type 'C'>",
            "<C instance>",
            "<Function m>",
            "None",
            "true",
            "text",
            "12",
            "-12",
            "2.5"
        ]
    );
}

#[test]
fn test_value_of_the_last_statement() {
    assert_eq!(execute("1 + 2;").last, Some("3".to_string()));
    assert_eq!(execute("print 1;").last, Some("None".to_string()));
    assert_eq!(execute("1 / 2;").last, Some("0.5".to_string()));
    assert_eq!(execute("{ 1; }").last, Some("None".to_string()));
}

#[test]
fn test_assignment_to_an_undefined_global() {
    assert_eq!(
        failure("a = 1;"),
        "NameError: name 'a' is not defined"
    );
}

#[test]
fn test_static_errors() {
    assert_eq!(
        failure("{ let a = a; }"),
        "Can't read local variable 'a' in its own initializer"
    );
    assert_eq!(
        failure("{ let a = 1; let a = 2; }"),
        "Already a variable with the name 'a' in this scope."
    );
    assert_eq!(failure("print this;"), "Can't use 'this' outside of a class");
    assert_eq!(
        failure("print super.x;"),
        "Can't use 'super' outside of a class"
    );
    assert_eq!(
        failure("class A { f() { return super.f(); } }"),
        "Can't use 'super' in a class with no superclass"
    );
    assert_eq!(
        failure("class A: A {}"),
        "Error at 'A': A class cannot inherit from itself."
    );
}

#[test]
fn test_without_resolution_variables_are_global() {
    let program = run("let a = 1; print a;", false).ok().unwrap();
    assert_eq!(program.locals.len(), 0);
    let mut interpreter = Interpreter::new();
    interpreter.interpret(&program.statements);
    let mut lines = vec![];
    assert!(drive(&mut interpreter, &mut lines).is_ok());
    assert_eq!(lines, vec!["1"]);
}

#[test]
fn test_a_machine_runs_one_program_after_another() {
    let first = run("let a = 1; def inc(n) { return n + a; }", true)
        .ok()
        .unwrap();
    let second = sox::init::run_from("print inc(41);", true, 1000, first.locals.clone())
        .ok()
        .unwrap();
    let mut interpreter = Interpreter::new();
    interpreter._locals = first.locals;
    interpreter.interpret(&first.statements);
    let mut lines = vec![];
    assert!(drive(&mut interpreter, &mut lines).is_ok());
    interpreter._locals = second.locals;
    interpreter.interpret(&second.statements);
    assert!(drive(&mut interpreter, &mut lines).is_ok());
    assert_eq!(lines, vec!["42"]);
}

#[test]
fn test_run_takes_a_budget_of_steps() {
    let program = run("while (true) {}", true).ok().unwrap();
    let mut interpreter = Interpreter::new();
    interpreter._locals = program.locals;
    interpreter.interpret(&program.statements);
    assert!(matches!(interpreter.run(None, 1000), Action::Continue));
    assert!(matches!(interpreter.run(None, 0), Action::Continue));
    let program = run("print 1; print 2;", true).ok().unwrap();
    let mut interpreter = Interpreter::new();
    interpreter.interpret(&program.statements);
    assert!(matches!(interpreter.run(None, 1000), Action::Print(line) if line == "1"));
    assert!(matches!(interpreter.run(None, 1000), Action::Print(line) if line == "2"));
    assert!(matches!(
        interpreter.run(None, 1000),
        Action::Finished(SoxObject::Nil(_))
    ));
    assert!(matches!(
        interpreter.step(None),
        Action::Finished(SoxObject::Nil(_))
    ));
}

#[test]
fn test_a_wrong_answer_from_the_host_is_a_runtime_error() {
    let program = run("print 1 / 2;", true).ok().unwrap();
    let mut interpreter = Interpreter::new();
    interpreter.interpret(&program.statements);
    let mut action = interpreter.step(None);
    while matches!(action, Action::Continue) {
        action = interpreter.step(None);
    }
    assert!(matches!(action, Action::Float(FloatRequest::Arithmetic { .. })));
    let mut action = interpreter.step(Some(FloatReply::Bool(true)));
    while matches!(action, Action::Continue) {
        action = interpreter.step(None);
    }
    match action {
        Action::Failed(error) => {
            assert_eq!(error.msg, "The host gave no answer of the kind asked for")
        }
        other => panic!("{:?}", other),
    }
}

#[test]
fn test_frames_of_blocks_are_dropped() {
    let source = r#"
let i = 0;
while (i < 50) { { let a = i; } i = i + 1; }
def f() { let b = 1; { let c = 2; } return b; }
f(); f(); f();
"#;
    let program = run(source, true).ok().unwrap();
    let mut interpreter = Interpreter::new();
    interpreter._locals = program.locals;
    interpreter.interpret(&program.statements);
    let mut lines = vec![];
    assert!(drive(&mut interpreter, &mut lines).is_ok());
    assert!(!interpreter.environment.is_full());
    let g = interpreter.environment.global;
    assert!(interpreter.environment.discard(g) == false);
    assert_eq!(interpreter.environment.frame_count(), 1);
}

#[test]
fn test_captured_frames_stay() {
    let source = r#"
def make() {
  let i = 0;
  def tick() { i = i + 1; return i; }
  return tick;
}
let t = make();
let u = make();
"#;
    let program = run(source, true).ok().unwrap();
    let mut interpreter = Interpreter::new();
    interpreter._locals = program.locals;
    interpreter.interpret(&program.statements);
    let mut lines = vec![];
    assert!(drive(&mut interpreter, &mut lines).is_ok());
    // the global frame and the two frames of `make` that `tick` captured
    assert_eq!(interpreter.environment.frame_count(), 3);
}
