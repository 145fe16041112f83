use sox::expr::Expr;
use sox::lexer::Lexer;
use sox::parser::{Parser, SyntaxError};
use sox::stmt::Stmt;
use sox::stmt::Stmt::{Function, Print};
use sox::token::Literal;
use sox::token::Token;
use sox::token_type::TokenType;
use sox::token_type::TokenType::Identifier;

fn parse(source: &str) -> Result<Vec<Stmt>, Vec<SyntaxError>> {
    let tokens = Lexer::lex(source);
    let mut parser = Parser::new(tokens);
    parser.parse()
}

fn list(count: usize) -> String {
    (0..count)
        .map(|i| format!("a{}", i))
        .collect::<Vec<String>>()
        .join(", ")
}

#[test]
fn test_function_statement() {
    let source = r#"
def hello_world(){
   print "hello world";
}"#;
    let tokens = Lexer::lex(source);
    let mut parser = Parser::new(tokens);

    let parse_tree = parser.parse();

    assert_eq!(parse_tree.is_ok(), true);

    let expected_stmts = vec![Function {
        name: Token {
            token_type: Identifier,
            lexeme: "hello_world".into(),
            literal: Literal::Nil,
            line: 2,
            id: 0,
        },
        params: vec![],
        body: vec![Print(Expr::Literal {
            value: Literal::String("hello world".into()),
        })],
    }];
    assert_eq!(parse_tree.unwrap(), expected_stmts);
}

#[test]
fn test_missing_semi_error() {
    let source = r#"
def hello_world(){
   print "hello world"
}"#;
    let tokens = Lexer::lex(source);
    let mut parser = Parser::new(tokens);

    let parse_tree = parser.parse();
    assert_eq!(parse_tree.is_err(), true);

    let errors = parse_tree.err().unwrap();
    assert_eq!(errors.len(), 1);
}

#[test]
fn test_class_statement() {
    let source = r#"
class HelloWorld{

   hello_world(){
       return "Hello world";
   }
}"#;
    let tokens = Lexer::lex(source);
    let mut parser = Parser::new(tokens);

    let parse_tree = parser.parse();
    assert_eq!(parse_tree.is_err(), false);
}

#[test]
fn test_for_statement() {
    let source = r#"
for (let i=0; i < 10; i=i+1){
    print i;
}
        "#;
    let tokens = Lexer::lex(source);
    let mut parser = Parser::new(tokens);

    let parse_tree = parser.parse();
    assert_eq!(parse_tree.is_err(), false);
}

#[test]
fn test_empty_string() {
    let source = r#"

        "#;
    let tokens = Lexer::lex(source);
    let mut parser = Parser::new(tokens);

    let parse_tree = parser.parse();
    assert_eq!(parse_tree.is_err(), false);
}

#[test]
fn test_empty_source_has_no_statements() {
    assert_eq!(parse("").unwrap().len(), 0);
    assert_eq!(parse("  // only a comment\n").unwrap().len(), 0);
}

#[test]
fn test_255_parameters_are_accepted() {
    let source = format!("def f({}) {{ }}", list(255));
    let statements = parse(&source).unwrap();
    match &statements[0] {
        Stmt::Function { params, .. } => assert_eq!(params.len(), 255),
        other => panic!("not a function: {:?}", other),
    }
}

#[test]
fn test_256_parameters_are_a_syntax_error() {
    let source = format!("def f({}) {{ }}\nprint 1;", list(256));
    let errors = parse(&source).err().unwrap();
    assert_eq!(errors.len(), 1);
    assert_eq!(
        errors[0].msg,
        "Error at 'a255': Can't have more than 255 parameters."
    );
    assert_eq!(errors[0].line, 1);
}

#[test]
fn test_255_arguments_are_accepted() {
    let source = format!("f({});", list(255));
    let statements = parse(&source).unwrap();
    match &statements[0] {
        Stmt::Expression(Expr::Call { arguments, .. }) => assert_eq!(arguments.len(), 255),
        other => panic!("not a call: {:?}", other),
    }
}

#[test]
fn test_256_arguments_are_a_syntax_error() {
    let source = format!("f({});", list(256));
    let errors = parse(&source).err().unwrap();
    assert_eq!(errors.len(), 1);
    assert_eq!(errors[0].msg, "Function cannot have more than 255 arguments");
}

#[test]
fn test_precedence() {
    let statements = parse("1 + 2 * 3 == 7 and !false or x;").unwrap();
    // ((1 + (2 * 3)) == 7 and !false) or x
    match &statements[0] {
        Stmt::Expression(Expr::Logical { left, operator, right }) => {
            assert_eq!(operator.token_type, TokenType::Or);
            assert!(matches!(**right, Expr::Variable { .. }));
            match &**left {
                Expr::Logical { left, operator, right } => {
                    assert_eq!(operator.token_type, TokenType::And);
                    assert!(matches!(**right, Expr::Unary { .. }));
                    match &**left {
                        Expr::Binary { left, operator, .. } => {
                            assert_eq!(operator.token_type, TokenType::EqualEqual);
                            match &**left {
                                Expr::Binary { operator, right, .. } => {
                                    assert_eq!(operator.token_type, TokenType::Plus);
                                    assert!(matches!(
                                        &**right,
                                        Expr::Binary { operator, .. }
                                            if operator.token_type == TokenType::Star
                                    ));
                                }
                                other => panic!("{:?}", other),
                            }
                        }
                        other => panic!("{:?}", other),
                    }
                }
                other => panic!("{:?}", other),
            }
        }
        other => panic!("{:?}", other),
    }
}

#[test]
fn test_operators_associate_to_the_left() {
    let statements = parse("1 - 2 - 3;").unwrap();
    match &statements[0] {
        Stmt::Expression(Expr::Binary { left, right, .. }) => {
            assert!(matches!(**left, Expr::Binary { .. }));
            assert_eq!(
                **right,
                Expr::Literal {
                    value: Literal::Integer(3)
                }
            );
        }
        other => panic!("{:?}", other),
    }
}

#[test]
fn test_for_is_written_as_while() {
    let statements = parse("for (let i = 0; i < 3; i = i + 1) print i;").unwrap();
    match &statements[0] {
        Stmt::Block(both) => {
            assert_eq!(both.len(), 2);
            assert!(matches!(both[0], Stmt::Var { .. }));
            match &both[1] {
                Stmt::While { condition, body } => {
                    assert!(matches!(condition, Expr::Binary { .. }));
                    match &**body {
                        Stmt::Block(inner) => {
                            assert_eq!(inner.len(), 2);
                            assert!(matches!(inner[0], Stmt::Print(_)));
                            assert!(matches!(inner[1], Stmt::Expression(Expr::Assign { .. })));
                        }
                        other => panic!("{:?}", other),
                    }
                }
                other => panic!("{:?}", other),
            }
        }
        other => panic!("{:?}", other),
    }
}

#[test]
fn test_for_without_clauses_loops_on_true() {
    let statements = parse("for (;;) print 1;").unwrap();
    match &statements[0] {
        Stmt::While { condition, body } => {
            assert_eq!(
                *condition,
                Expr::Literal {
                    value: Literal::Boolean(true)
                }
            );
            assert!(matches!(**body, Stmt::Print(_)));
        }
        other => panic!("{:?}", other),
    }
}

#[test]
fn test_class_with_superclass() {
    let statements = parse("class B: A { hi() { return super.hi(); } }").unwrap();
    match &statements[0] {
        Stmt::Class {
            name,
            superclass,
            methods,
        } => {
            assert_eq!(name.lexeme, "B");
            assert!(matches!(superclass, Some(Expr::Variable { name }) if name.lexeme == "A"));
            assert_eq!(methods.len(), 1);
        }
        other => panic!("{:?}", other),
    }
}

#[test]
fn test_assignment_targets() {
    let statements = parse("a = 1; a.b = 2; a.b.c = 3;").unwrap();
    assert!(matches!(statements[0], Stmt::Expression(Expr::Assign { .. })));
    assert!(matches!(statements[1], Stmt::Expression(Expr::SetField { .. })));
    assert!(matches!(statements[2], Stmt::Expression(Expr::SetField { .. })));
}

#[test]
fn test_bare_return_has_no_value() {
    let statements = parse("def f() { return; } def g() { return None; }").unwrap();
    match &statements[0] {
        Stmt::Function { body, .. } => {
            assert!(matches!(body[0], Stmt::Return { value: None, .. }))
        }
        other => panic!("{:?}", other),
    }
    match &statements[1] {
        Stmt::Function { body, .. } => {
            assert!(matches!(body[0], Stmt::Return { value: Some(_), .. }))
        }
        other => panic!("{:?}", other),
    }
}

#[test]
fn test_errors_are_collected_after_synchronization() {
    let errors = parse("let = 1;\nprint 2;\nprint ;\nlet b = 3;").err().unwrap();
    assert_eq!(errors.len(), 2);
    assert_eq!(errors[0].msg, "Error at '=': Expect variable name.");
    assert_eq!(errors[0].line, 1);
    assert_eq!(errors[1].msg, "Error at ';': Expect an expression.");
    assert_eq!(errors[1].line, 3);
    assert_eq!(errors[1].repr(), "[line 3] Error at ';': Expect an expression.");
}

#[test]
fn test_error_at_the_end_of_input() {
    let errors = parse("print 1 +").err().unwrap();
    assert_eq!(errors.len(), 1);
    assert_eq!(errors[0].msg, "Error at 'eof': Expect an expression.");
}

#[test]
fn test_lex_errors_are_syntax_errors() {
    let errors = parse("print \"abc;").err().unwrap();
    assert_eq!(errors.len(), 1);
    assert_eq!(errors[0].line, 1);
    assert_eq!(errors[0].msg, "Error at '\"abc;': Unterminated string");
    let errors = parse("let a = 1 # 2;\nprint /* never closed").err().unwrap();
    assert_eq!(errors.len(), 2);
    assert_eq!(errors[0].msg, "Error at '#': Unexpected character");
    assert_eq!(errors[1].msg, "Error at '/* never closed': Unterminated comment");
    assert_eq!(errors[1].line, 2);
    let errors = parse("print 99999999999999999999;").err().unwrap();
    assert_eq!(
        errors[0].msg,
        "Error at '99999999999999999999': Integer literal out of range"
    );
}

#[test]
fn test_the_error_of_an_error_token() {
    let tokens = Lexer::lex("a \"b").collect();
    assert!(sox::lexer::LexError::of(&tokens[0]).is_none());
    let error = sox::lexer::LexError::of(&tokens[2]).unwrap();
    assert_eq!(error.msg(), "Unterminated string");
    assert_eq!(
        sox::lexer::LexError::new("x".to_string()).msg(),
        "x"
    );
}

#[test]
fn test_only_a_variable_or_a_property_is_assigned_to() {
    for source in ["1 = 2;", "a + b = 3;", "(a) = 1;", "f() = 1;", "print 1 = 2;"] {
        let errors = parse(source).err().unwrap();
        assert_eq!(errors.len(), 1, "{}", source);
        assert!(errors[0].msg.ends_with("Expect ';' after expression."), "{}", source);
    }
    let errors = parse("1 = 2; print 3; 4 = 5;").err().unwrap();
    assert_eq!(errors.len(), 2);
}

#[test]
fn test_assignment_associates_to_the_right() {
    let statements = parse("a = b = 1;").unwrap();
    assert_eq!(statements.len(), 1);
    match &statements[0] {
        Stmt::Expression(Expr::Assign { name, value }) => {
            assert_eq!(name.lexeme, "a");
            match &**value {
                Expr::Assign { name, value } => {
                    assert_eq!(name.lexeme, "b");
                    assert!(matches!(&**value, Expr::Literal { value: Literal::Integer(1) }));
                },
                other => panic!("{:?}", other),
            }
        },
        other => panic!("{:?}", other),
    }
}

#[test]
fn test_a_text_is_read_as_one_program_only() {
    let source = "class A : B { f(x, y) { return x.g(y)(1) + -2 * 3; } }
        for (let i = 0; i < 3; i = i + 1) if (i == 1 or i == 2) print i; else { a.b = i; }
        while (true) {}";
    let first = parse(source).unwrap();
    let second = parse(source).unwrap();
    assert_eq!(first, second);
    assert_eq!(first.len(), 3);
}

#[test]
fn test_what_is_no_program_gives_errors() {
    for source in [
        "let;",
        "let a = ;",
        "print;",
        "return 1",
        "if (a print 1;",
        "if (a) else print 1;",
        "while a) print 1;",
        "for (;;",
        "for (let a = 1 a < 2;) print a;",
        "for (a; b; c d) print a;",
        "class { }",
        "class A : { }",
        "class A { def f() {} }",
        "class A { f() {}",
        "def f(a,) {}",
        "def f(a b) {}",
        "def f() print 1;",
        "{ print 1;",
        "f(1, );",
        "f(1 2);",
        "a.;",
        "super;",
        "super.;",
        "(1 + 2;",
        "1 + ;",
        "-;",
        "a = ;",
        "a.b = ;",
        "}",
    ] {
        assert!(parse(source).is_err(), "{}", source);
    }
}

#[test]
fn test_stepping_over_tokens() {
    let mut parser = Parser::new(Lexer::lex("a ; b"));
    assert!(!parser.at_end());
    assert!(parser.check(Identifier));
    assert!(!parser.check(TokenType::Semi));
    assert_eq!(parser.advance().unwrap().lexeme, "a");
    assert_eq!(parser.previous().lexeme, "a");
    assert!(parser.match_token(vec![TokenType::Comma, TokenType::Semi]));
    assert!(!parser.match_token(vec![TokenType::Comma, TokenType::Semi]));
    assert_eq!(parser.advance().unwrap().lexeme, "b");
    assert!(parser.at_end());
    assert!(parser.advance().is_none());
    assert_eq!(parser.current, 3);
}

#[test]
fn test_two_parameters_of_one_name_are_a_syntax_error() {
    let errors = parse("def f(a, b, a) {}").err().unwrap();
    assert_eq!(errors.len(), 1);
    assert_eq!(errors[0].msg, "Error at 'a': Duplicate parameter name.");
    assert_eq!(errors[0].line, 1);
    let errors = parse("class A {\n m(x,\n x) {} }").err().unwrap();
    assert_eq!(errors[0].line, 3);
    assert!(parse("def f(a, b) {} def g(a, b) {}").is_ok());
    assert!(parse("def f(a) { let a = 1; }").is_ok());
}
