use sox::lexer::Lexer;
use sox::parser::to_ignore;
use sox::token::{Float, Literal, Token};
use sox::token_type::TokenType;

fn seen(source: &str) -> Vec<Token> {
    let skip = to_ignore();
    Lexer::lex(source)
        .collect()
        .into_iter()
        .filter(|token| !skip.contains(&token.token_type))
        .collect::<Vec<Token>>()
}

fn kinds(tokens: &[Token]) -> Vec<TokenType> {
    tokens.iter().map(|t| t.token_type).collect()
}

#[test]
fn test_class_lex() {
    let source = r#"
class A {
    method(){
        print "A method";
    }
}"#;
    let lexer = Lexer::lex(source);
    let tokens = lexer.collect();

    let to_ignore = to_ignore();
    let non_whitespace_tokens = tokens
        .into_iter()
        .filter(|token| !to_ignore.contains(&token.token_type))
        .collect::<Vec<Token>>();
    assert_eq!(non_whitespace_tokens.len(), 12);
    assert_eq!(
        vec![
            Token::new(TokenType::Class, "class".into(), Literal::Nil, 2),
            Token::new(TokenType::Identifier, "A".into(), Literal::Nil, 2)
        ],
        non_whitespace_tokens[..2]
    )
}

#[test]
fn test_var_lex() {
    let source = "let v = 10;";
    let lexer = Lexer::lex(source);
    let tokens = lexer.collect();

    let to_ignore = to_ignore();
    let non_whitespace_tokens = tokens
        .into_iter()
        .filter(|token| !to_ignore.contains(&token.token_type))
        .collect::<Vec<Token>>();
    assert_eq!(non_whitespace_tokens.len(), 5);
}

#[test]
fn test_func_lex() {
    let source = "
def fib(n) {
    if (n == 0 or n == 1) {
        return n;
    }
    return fib(n-1) + fib(n-2);
}";
    let lexer = Lexer::lex(source);
    let tokens = lexer.collect();

    let to_ignore = to_ignore();
    let non_whitespace_tokens = tokens
        .into_iter()
        .filter(|token| !to_ignore.contains(&token.token_type))
        .collect::<Vec<Token>>();
    assert_eq!(non_whitespace_tokens.len(), 37);
}

#[test]
fn test_line_numbers() {
    let source = r#"/*
A very simple program to test our vm.

def fib(n) {
    if (n == 0 or n == 1) {
        return n;
    }
    return fib(n-1) + fib(n-2);
}

let a = fib(6);

print a;*/

for (let i=0; i < 10; i=i+1){
    print i
}
"#;
    let lexer = Lexer::lex(source);
    let tokens = lexer.collect();

    let mut checked = 0;
    for token in tokens {
        if token.token_type == TokenType::For {
            assert_eq!(token.line, 15);
            checked += 1;
        }
        if token.token_type == TokenType::Print {
            assert_eq!(token.line, 16);
            checked += 1;
        }
    }
    assert_eq!(checked, 2);
}

#[test]
fn test_lexemes_tile_the_source() {
    let source = "let a = 1.5; // note\n/* block\n comment */ print \"s\" != a;\t@";
    let tokens = Lexer::lex(source).collect();
    let text: String = tokens.iter().map(|t| t.lexeme.as_str()).collect();
    assert_eq!(text, source);
}

#[test]
fn test_lexing_the_textual_form_gives_the_same_kinds() {
    let source = "class A: B { init(x) { this.x = x; } }\nprint A(1).x >= 2 and true or !false;";
    let first = Lexer::lex(source).collect();
    let text: String = first.iter().map(|t| t.lexeme.as_str()).collect();
    let second = Lexer::lex(&text).collect();
    assert_eq!(kinds(&first), kinds(&second));
    assert_eq!(first, second);
}

#[test]
fn test_end_token_comes_last_and_once() {
    let mut lexer = Lexer::lex("a");
    let first = lexer.next().unwrap();
    assert_eq!(first.token_type, TokenType::Identifier);
    assert_eq!(first.id, 0);
    let end = lexer.next().unwrap();
    assert_eq!(end.token_type, TokenType::EOF);
    assert_eq!(end.lexeme, "");
    assert_eq!(end.line, 1);
    assert_eq!(end.id, 1);
    assert!(lexer.next().is_none());
    assert!(lexer.next().is_none());
}

#[test]
fn test_empty_source_has_only_the_end_token() {
    let mut lexer = Lexer::lex("");
    assert_eq!(lexer.next().unwrap().token_type, TokenType::EOF);
    assert!(lexer.next().is_none());
    assert_eq!(Lexer::lex("").collect().len(), 0);
}

#[test]
fn test_token_numbers_count_every_token() {
    let tokens = Lexer::lex("a b").collect();
    assert_eq!(tokens.len(), 3);
    assert_eq!(tokens[0].id, 0);
    assert_eq!(tokens[1].token_type, TokenType::Whitespace);
    assert_eq!(tokens[1].id, 1);
    assert_eq!(tokens[2].id, 2);
    let later = Lexer::numbered_from("a", 7).collect();
    assert_eq!(later[0].id, 7);
    let mut lexer = Lexer::numbered_from("a b", 7);
    assert_eq!(lexer.next_number(), 7);
    let _ = lexer.next();
    assert_eq!(lexer.next_number(), 8);
}

#[test]
fn test_single_and_double_character_tokens() {
    let tokens = seen("( ) { } [ ] , . - + ; : % * / ! != = == < <= > >=");
    assert_eq!(
        kinds(&tokens),
        vec![
            TokenType::LeftParen,
            TokenType::RightParen,
            TokenType::LeftBrace,
            TokenType::RightBrace,
            TokenType::LeftSqb,
            TokenType::RightSqb,
            TokenType::Comma,
            TokenType::Dot,
            TokenType::Minus,
            TokenType::Plus,
            TokenType::Semi,
            TokenType::Colon,
            TokenType::Rem,
            TokenType::Star,
            TokenType::Slash,
            TokenType::Bang,
            TokenType::BangEqual,
            TokenType::Equal,
            TokenType::EqualEqual,
            TokenType::Less,
            TokenType::LessEqual,
            TokenType::Greater,
            TokenType::GreaterEqual,
        ]
    );
}

#[test]
fn test_keywords_and_identifiers() {
    let tokens = seen(
        "and class else false for if or return super this true let while def print None andy _x x1",
    );
    assert_eq!(
        kinds(&tokens),
        vec![
            TokenType::And,
            TokenType::Class,
            TokenType::Else,
            TokenType::False,
            TokenType::For,
            TokenType::If,
            TokenType::Or,
            TokenType::Return,
            TokenType::Super,
            TokenType::This,
            TokenType::True,
            TokenType::Let,
            TokenType::While,
            TokenType::Def,
            TokenType::Print,
            TokenType::Nil,
            TokenType::Identifier,
            TokenType::Identifier,
            TokenType::Identifier,
        ]
    );
    assert_eq!(tokens[16].lexeme, "andy");
}

#[test]
fn test_numbers() {
    let tokens = seen("12 3.25 7. 9223372036854775807 9223372036854775808 0");
    assert_eq!(tokens[0].literal, Literal::Integer(12));
    assert_eq!(tokens[1].token_type, TokenType::Number);
    assert_eq!(tokens[1].literal, Literal::Float(Float("3.25".to_string())));
    assert_eq!(tokens[1].lexeme, "3.25");
    assert_eq!(tokens[2].literal, Literal::Integer(7));
    assert_eq!(tokens[3].token_type, TokenType::Dot);
    assert_eq!(tokens[4].literal, Literal::Integer(i64::MAX));
    assert_eq!(tokens[5].token_type, TokenType::Error);
    assert_eq!(
        tokens[5].literal,
        Literal::String("Integer literal out of range".to_string())
    );
    assert_eq!(tokens[5].lexeme, "9223372036854775808");
    assert_eq!(tokens[6].literal, Literal::Integer(0));
}

#[test]
fn test_strings() {
    let tokens = seen("\"ab c\" \"\"");
    assert_eq!(tokens[0].token_type, TokenType::SoxString);
    assert_eq!(tokens[0].lexeme, "\"ab c\"");
    assert_eq!(tokens[0].literal, Literal::String("ab c".to_string()));
    assert_eq!(tokens[1].literal, Literal::String(String::new()));
}

#[test]
fn test_unterminated_string_is_an_error_token() {
    let tokens = seen("print \"abc;\n");
    assert_eq!(tokens.len(), 2);
    assert_eq!(tokens[1].token_type, TokenType::Error);
    assert_eq!(tokens[1].lexeme, "\"abc;\n");
    assert_eq!(
        tokens[1].literal,
        Literal::String("Unterminated string".to_string())
    );
}

#[test]
fn test_comments() {
    let all = Lexer::lex("1 // one\n/* a\nb */2").collect();
    let comments: Vec<&Token> = all
        .iter()
        .filter(|t| t.token_type == TokenType::Comment)
        .collect();
    assert_eq!(comments.len(), 2);
    assert_eq!(comments[0].lexeme, "// one");
    assert_eq!(comments[0].line, 1);
    assert_eq!(comments[1].lexeme, "/* a\nb */");
    assert_eq!(comments[1].line, 3);
    let last = all.last().unwrap();
    assert_eq!(last.literal, Literal::Integer(2));
    assert_eq!(last.line, 3);
}

#[test]
fn test_unterminated_comment_is_an_error_token() {
    let tokens = seen("1 /* never\nclosed *");
    assert_eq!(tokens.len(), 2);
    assert_eq!(tokens[1].token_type, TokenType::Error);
    assert_eq!(
        tokens[1].literal,
        Literal::String("Unterminated comment".to_string())
    );
    assert_eq!(tokens[1].lexeme, "/* never\nclosed *");
}

#[test]
fn test_stray_character_is_an_error_token() {
    let tokens = seen("a @ b");
    assert_eq!(
        kinds(&tokens),
        vec![TokenType::Identifier, TokenType::Error, TokenType::Identifier]
    );
    assert_eq!(tokens[1].lexeme, "@");
    assert_eq!(
        tokens[1].literal,
        Literal::String("Unexpected character".to_string())
    );
}

#[test]
fn test_tabs_and_carriage_returns_are_blanks() {
    let all = Lexer::lex("a\t\r b").collect();
    assert_eq!(
        kinds(&all),
        vec![
            TokenType::Identifier,
            TokenType::Whitespace,
            TokenType::Whitespace,
            TokenType::Whitespace,
            TokenType::Identifier
        ]
    );
}

#[test]
fn test_tokens_compare_by_content_not_number() {
    let a = Token {
        token_type: TokenType::Identifier,
        lexeme: "x".into(),
        literal: Literal::Nil,
        line: 1,
        id: 3,
    };
    let b = Token::new(TokenType::Identifier, "x".into(), Literal::Nil, 1);
    assert_eq!(b.id, 0);
    assert_eq!(a, b);
    assert_ne!(a, Token::new(TokenType::Identifier, "y".into(), Literal::Nil, 1));
    assert_ne!(a, Token::new(TokenType::Identifier, "x".into(), Literal::Nil, 2));
    assert_ne!(a, Token::new(TokenType::This, "x".into(), Literal::Nil, 1));
    assert_ne!(
        a,
        Token::new(TokenType::Identifier, "x".into(), Literal::Boolean(true), 1)
    );
    let c = a.clone();
    assert_eq!(c.id, 3);
    assert_eq!(c.lexeme, "x");
}
