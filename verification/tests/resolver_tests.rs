use std::collections::HashMap;

use sox::expr::Expr;
use sox::lexer::Lexer;
use sox::parser::Parser;
use sox::resolver::{ClassType, FunctionType, Resolver, ResolverError};
use sox::stmt::Stmt;
use sox::token::{Literal, Token};
use sox::token_type::TokenType;

fn parse(source: &str) -> Vec<Stmt> {
    let mut parser = Parser::new(Lexer::lex(source));
    parser.parse().unwrap()
}

fn resolve(source: &str) -> Result<HashMap<u32, (usize, usize)>, ResolverError> {
    Resolver::new().resolve(&parse(source))
}

fn message(source: &str) -> String {
    resolve(source).err().unwrap().repr()
}

/// The coordinates, in the order of the references in the source.
fn coordinates(source: &str) -> Vec<(usize, usize)> {
    let table = resolve(source).unwrap();
    let mut entries: Vec<(u32, (usize, usize))> = table.into_iter().collect();
    entries.sort();
    entries.into_iter().map(|e| e.1).collect()
}

fn name(lexeme: &str, id: u32) -> Token {
    Token {
        token_type: TokenType::Identifier,
        lexeme: lexeme.to_string(),
        literal: Literal::Nil,
        line: 1,
        id,
    }
}

#[test]
fn test_globals_are_not_in_the_table() {
    assert_eq!(resolve("let a = 1; print a; a = 2;").unwrap().len(), 0);
    assert_eq!(resolve("def f() { return g; }").unwrap().len(), 0);
}

#[test]
fn test_depth_and_index() {
    // a b: declared; references: b (0,1), a (1,0) and a (0,0)
    let source = "{ let a = 1; let b = 2; print b; { print a; let a = 3; print a; } }";
    assert_eq!(coordinates(source), vec![(0, 1), (1, 0), (0, 0)]);
}

#[test]
fn test_parameters_and_locals_share_a_scope() {
    let source = "def f(x, y) { let z = x; return y + z; }";
    assert_eq!(coordinates(source), vec![(0, 0), (0, 1), (0, 2)]);
}

#[test]
fn test_assignment_is_resolved_like_a_reference() {
    let source = "{ let a = 1; { a = 2; } }";
    assert_eq!(coordinates(source), vec![(1, 0)]);
}

#[test]
fn test_this_and_super() {
    let source = "class A { f() { return this; } } class B: A { g(x) { { return super.f; } } }";
    // `this` in f: one scope out of the body; `super` in g: the block, the
    // body, the scope of `this`, then the scope of `super`
    assert_eq!(coordinates(source), vec![(1, 0), (3, 0)]);
}

#[test]
fn test_resolving_twice_gives_equal_tables() {
    let source = r#"
class A { init(x) { this.x = x; } }
class B: A { get() { { return super.init; } } }
def make(n) { let i = n; def tick() { i = i + 1; return i; } return tick; }
{ let t = make(1); print t(); }
"#;
    let statements = parse(source);
    let first = Resolver::new().resolve(&statements).unwrap();
    let second = Resolver::new().resolve(&statements).unwrap();
    assert!(first.len() > 5);
    assert_eq!(first, second);
    let mut resolver = Resolver::new();
    let once = resolver.resolve(&statements).unwrap();
    let again = resolver.resolve(&statements).unwrap();
    assert_eq!(once, again);
    assert_eq!(once, first);
}

#[test]
fn test_own_initializer() {
    assert_eq!(
        message("{ let a = 1; { let a = a; } }"),
        "Can't read local variable 'a' in its own initializer"
    );
    assert!(matches!(
        resolve("{ let a = a; }"),
        Err(ResolverError::SyntaxError(_))
    ));
    assert!(resolve("let a = a;").is_ok());
}

#[test]
fn test_duplicate_local() {
    assert!(matches!(
        resolve("{ let a = 1; let a = 2; }"),
        Err(ResolverError::DuplicateVariable(_))
    ));
    let twice = Stmt::Function {
        name: name("f", 0),
        params: vec![name("a", 1), name("a", 2)],
        body: vec![],
    };
    assert!(matches!(
        Resolver::new().resolve(&vec![twice]),
        Err(ResolverError::DuplicateVariable(_))
    ));
    assert!(matches!(
        resolve("def f(a) { let a = 1; }"),
        Err(ResolverError::DuplicateVariable(_))
    ));
    assert!(resolve("let a = 1; let a = 2;").is_ok());
    assert!(resolve("{ let a = 1; { let a = 2; } }").is_ok());
}

#[test]
fn test_return_at_top_level() {
    assert_eq!(message("return 1;"), "Return not allowed at top-level code.");
    assert_eq!(message("return;"), "Return not allowed at top-level code.");
    assert_eq!(
        message("{ if (true) return; }"),
        "Return not allowed at top-level code."
    );
    assert!(resolve("def f() { return 1; }").is_ok());
}

#[test]
fn test_return_in_an_initializer() {
    assert_eq!(
        message("class A { init() { return 1; } }"),
        "Cannot return value from initializer."
    );
    assert!(resolve("class A { init() { return; } }").is_ok());
    assert!(resolve("class A { other() { return 1; } }").is_ok());
    assert!(resolve("class A { init() { def f() { return 1; } } }").is_ok());
}

#[test]
fn test_this_outside_a_class() {
    assert_eq!(message("print this;"), "Can't use 'this' outside of a class");
    assert_eq!(
        message("def f() { return this; }"),
        "Can't use 'this' outside of a class"
    );
    assert_eq!(
        message("class A {} print this;"),
        "Can't use 'this' outside of a class"
    );
}

#[test]
fn test_super_misuse() {
    assert_eq!(
        message("print super.f;"),
        "Can't use 'super' outside of a class"
    );
    assert_eq!(
        message("class A { f() { super.f(); } }"),
        "Can't use 'super' in a class with no superclass"
    );
    assert_eq!(
        message("class A {} class B: A {} class C { f() { super.f(); } }"),
        "Can't use 'super' in a class with no superclass"
    );
}

#[test]
fn test_class_inheriting_from_itself() {
    assert_eq!(
        message("class A: A {}"),
        "Error at 'A': A class cannot inherit from itself."
    );
}

#[test]
fn test_scopes_by_hand() {
    let mut resolver = Resolver::new();
    assert!(resolver.declare(&name("g", 0)).is_ok());
    assert_eq!(resolver.scopes.len(), 0);
    resolver.begin_scope();
    assert!(resolver.declare(&name("a", 1)).is_ok());
    assert_eq!(resolver.scopes[0], vec![("a".to_string(), false)]);
    assert!(resolver.define(&name("a", 1)).is_ok());
    assert_eq!(resolver.scopes[0], vec![("a".to_string(), true)]);
    assert!(resolver.declare(&name("a", 2)).is_err());
    resolver.begin_scope();
    assert!(resolver.declare(&name("b", 3)).is_ok());
    assert!(resolver.resolve_local(&name("a", 4)).is_ok());
    assert!(resolver.resolve_local(&name("b", 5)).is_ok());
    assert!(resolver.resolve_local(&name("g", 6)).is_ok());
    assert_eq!(resolver._resolved_data.get(&4), Some(&(1, 0)));
    assert_eq!(resolver._resolved_data.get(&5), Some(&(0, 0)));
    assert_eq!(resolver._resolved_data.get(&6), None);
    resolver.end_scope();
    resolver.end_scope();
    resolver.end_scope();
    assert_eq!(resolver.scopes.len(), 0);
    assert!(resolver.current_function == FunctionType::Absent);
    assert!(resolver.current_class == ClassType::Absent);
}

#[test]
fn test_resolving_a_function_restores_the_kind_around_it() {
    let statements = parse("def f(a) { return a; }");
    let mut resolver = Resolver::new();
    assert!(resolver
        .resolve_function(&statements[0], FunctionType::Method)
        .is_ok());
    assert!(resolver.current_function == FunctionType::Absent);
    assert_eq!(resolver.scopes.len(), 0);
    assert_eq!(resolver._resolved_data.len(), 1);
    let not_a_function = Stmt::Print(Expr::Literal {
        value: Literal::Nil,
    });
    assert!(resolver
        .resolve_function(&not_a_function, FunctionType::Function)
        .is_ok());
    assert!(resolver.resolve_stmt(&not_a_function).is_ok());
}

#[test]
fn test_continuing_adds_to_the_table() {
    let mut table = HashMap::new();
    table.insert(900, (4, 2));
    let statements = parse("{ let a = 1; print a; }");
    let merged = Resolver::continuing(table).resolve(&statements).unwrap();
    assert_eq!(merged.len(), 2);
    assert_eq!(merged.get(&900), Some(&(4, 2)));
}
