use vstd::prelude::*;
use crate::expr::Expr;
use crate::stmt::Stmt;
use crate::token::{Literal, Token};
use crate::token_type::TokenType;

verus! {

/// The token at the index is of the kind.
pub open spec fn is_at(tokens: Seq<Token>, at: int, kind: TokenType) -> bool {
    0 <= at < tokens.len() && tokens[at].token_type == kind
}

/// The token at the index is the token given, which is of the kind.
pub open spec fn stands_at(tokens: Seq<Token>, at: int, token: Token, kind: TokenType) -> bool {
    0 <= at < tokens.len() && tokens[at] == token && token.token_type == kind
}

/// Marks an index as one where a reading is cut in two.
pub open spec fn cut(at: int) -> bool {
    true
}

/// The levels of the expression grammar, from what binds tightest.
pub const PRIMARY: u8 = 0;

pub const CALL: u8 = 1;

pub const UNARY: u8 = 2;

pub const FACTOR: u8 = 3;

pub const TERM: u8 = 4;

pub const COMPARISON: u8 = 5;

pub const EQUALITY: u8 = 6;

pub const AND: u8 = 7;

pub const OR: u8 = 8;

pub const ASSIGNMENT: u8 = 9;

/// The operator belongs to the level of binary operators.
pub open spec fn operator_of(level: int, kind: TokenType) -> bool {
    if level == FACTOR {
        kind == TokenType::Slash || kind == TokenType::Star || kind == TokenType::Rem
    } else if level == TERM {
        kind == TokenType::Minus || kind == TokenType::Plus
    } else if level == COMPARISON {
        kind == TokenType::Greater || kind == TokenType::GreaterEqual || kind == TokenType::Less
            || kind == TokenType::LessEqual
    } else if level == EQUALITY {
        kind == TokenType::BangEqual || kind == TokenType::EqualEqual
    } else if level == AND {
        kind == TokenType::And
    } else if level == OR {
        kind == TokenType::Or
    } else {
        false
    }
}

/// The expression is an operation of the level: a logical one for `and` and
/// `or`, a binary one for the levels below them.
pub open spec fn operation_of(level: int, e: Expr) -> bool {
    match e {
        Expr::Binary { operator, .. } => FACTOR <= level <= EQUALITY && operator_of(
            level,
            operator.token_type,
        ),
        Expr::Logical { operator, .. } => AND <= level <= OR && operator_of(
            level,
            operator.token_type,
        ),
        _ => false,
    }
}

/// The literal that a token denotes, for the tokens that denote one.
pub open spec fn literal_of(token: Token) -> Option<Literal> {
    match token.token_type {
        TokenType::Nil => Some(Literal::Nil),
        TokenType::False => Some(Literal::Boolean(false)),
        TokenType::True => Some(Literal::Boolean(true)),
        TokenType::Number => Some(token.literal),
        TokenType::SoxString => Some(token.literal),
        _ => None,
    }
}

/// The tokens from `start` up to `end` are the expression, read at the level
/// of the grammar given:
///
/// ```text
/// assignment = (call ".")? IDENT "=" assignment | logic_or
/// logic_or   = logic_and ("or" logic_and)*
/// logic_and  = equality ("and" equality)*
/// equality   = comparison (("!="|"==") comparison)*
/// comparison = term (("<"|"<="|">"|">=") term)*
/// term       = factor (("-"|"+") factor)*
/// factor     = unary (("/"|"*"|"%") unary)*
/// unary      = ("!"|"-") unary | call
/// call       = primary ( "(" arguments? ")" | "." IDENT )*
/// primary    = "None"|"true"|"false"|NUMBER|STRING|"this"
///            | "super" "." IDENT | IDENT | "(" assignment ")"
/// ```
///
/// Operators of one level associate to the left. A variable or a property
/// before a `=` is the target of an assignment, never an expression of its
/// own.
pub open spec fn derives(tokens: Seq<Token>, level: int, start: int, e: Expr, end: int) -> bool
    decreases e, level, 1int,
{
    if level <= PRIMARY {
        match e {
            Expr::Literal { value } => end == start + 1 && 0 <= start < tokens.len() && literal_of(
                tokens[start],
            ) == Some(value),
            Expr::Variable { name } => end == start + 1 && stands_at(
                tokens,
                start,
                name,
                TokenType::Identifier,
            ),
            Expr::This { keyword } => end == start + 1 && stands_at(
                tokens,
                start,
                keyword,
                TokenType::This,
            ),
            Expr::Super { keyword, method } => {
                &&& end == start + 3
                &&& stands_at(tokens, start, keyword, TokenType::Super)
                &&& is_at(tokens, start + 1, TokenType::Dot)
                &&& stands_at(tokens, start + 2, method, TokenType::Identifier)
            },
            Expr::Grouping { expr } => {
                &&& is_at(tokens, start, TokenType::LeftParen)
                &&& derives(tokens, ASSIGNMENT as int, start + 1, *expr, end - 1)
                &&& is_at(tokens, end - 1, TokenType::RightParen)
            },
            _ => false,
        }
    } else if level == CALL {
        match e {
            Expr::Call { .. } => exists|open: int|
                #[trigger] cut(open) && called_at(tokens, start, e, open, end),
            Expr::Get { object, name } => {
                &&& derives(tokens, CALL as int, start, *object, end - 2)
                &&& is_at(tokens, end - 2, TokenType::Dot)
                &&& stands_at(tokens, end - 1, name, TokenType::Identifier)
            },
            _ => derives(tokens, PRIMARY as int, start, e, end),
        }
    } else if level == UNARY {
        match e {
            Expr::Unary { operator, right } => {
                &&& 0 <= start < tokens.len()
                &&& tokens[start] == operator
                &&& operator.token_type == TokenType::Bang || operator.token_type
                    == TokenType::Minus
                &&& derives(tokens, UNARY as int, start + 1, *right, end)
            },
            _ => derives(tokens, CALL as int, start, e, end),
        }
    } else if level <= OR {
        if operation_of(level, e) {
            exists|at: int| #[trigger] cut(at) && operated_at(tokens, level, start, e, at, end)
        } else {
            derives(tokens, level - 1, start, e, end)
        }
    } else {
        match e {
            Expr::Assign { name, value } => {
                &&& stands_at(tokens, start, name, TokenType::Identifier)
                &&& is_at(tokens, start + 1, TokenType::Equal)
                &&& derives(tokens, ASSIGNMENT as int, start + 2, *value, end)
            },
            Expr::SetField { .. } => exists|dot: int|
                #[trigger] cut(dot) && set_at(tokens, start, e, dot, end),
            _ => derives(tokens, OR as int, start, e, end) && !targets(tokens, e, end),
        }
    }
}

/// The expression, which ends at `end`, is the target of an assignment: a
/// variable or a property, with a `=` after it.
pub open spec fn targets(tokens: Seq<Token>, e: Expr, end: int) -> bool {
    is_at(tokens, end, TokenType::Equal) && (e is Variable || e is Get)
}

/// The expression is an operation of the level whose operator stands at
/// `at`: the left operand, read at the same level, ends there, and the right
/// operand, read one level tighter, follows.
pub open spec fn operated_at(
    tokens: Seq<Token>,
    level: int,
    start: int,
    e: Expr,
    at: int,
    end: int,
) -> bool
    decreases e, level, 0int,
{
    &&& 0 <= at < tokens.len()
    &&& UNARY < level <= OR
    &&& match e {
        Expr::Binary { left, operator, right } => {
            &&& tokens[at] == operator
            &&& derives(tokens, level, start, *left, at)
            &&& derives(tokens, level - 1, at + 1, *right, end)
        },
        Expr::Logical { left, operator, right } => {
            &&& tokens[at] == operator
            &&& derives(tokens, level, start, *left, at)
            &&& derives(tokens, level - 1, at + 1, *right, end)
        },
        _ => false,
    }
}

/// The expression is a call whose opening parenthesis stands at `open`: what
/// is called ends there, and the arguments, separated by commas and no more
/// than 255, and the closing parenthesis follow.
pub open spec fn called_at(tokens: Seq<Token>, start: int, e: Expr, open: int, end: int) -> bool
    decreases e, CALL as int, 0int,
{
    match e {
        Expr::Call { callee, paren, arguments } => {
            &&& derives(tokens, CALL as int, start, *callee, open)
            &&& is_at(tokens, open, TokenType::LeftParen)
            &&& listed(tokens, open + 1, arguments@, arguments@.len() as int, end - 1)
            &&& stands_at(tokens, end - 1, paren, TokenType::RightParen)
            &&& arguments@.len() <= 255
        },
        _ => false,
    }
}

/// The tokens from `start` up to `end` are the first `count` of the
/// expressions, separated by commas.
pub open spec fn listed(tokens: Seq<Token>, start: int, list: Seq<Expr>, count: int, end: int) -> bool
    decreases list, count, 1int,
{
    if count <= 0 || count > list.len() {
        start == end && count == 0
    } else if count == 1 {
        derives(tokens, ASSIGNMENT as int, start, list[0], end)
    } else {
        exists|comma: int|
            #[trigger] cut(comma) && listed_to(tokens, start, list, count, comma, end)
    }
}

/// The last of the first `count` expressions follows the comma at `comma`,
/// and the ones before it end there.
pub open spec fn listed_to(
    tokens: Seq<Token>,
    start: int,
    list: Seq<Expr>,
    count: int,
    comma: int,
    end: int,
) -> bool
    decreases list, count, 0int,
{
    &&& 1 < count <= list.len()
    &&& listed(tokens, start, list, count - 1, comma)
    &&& is_at(tokens, comma, TokenType::Comma)
    &&& derives(tokens, ASSIGNMENT as int, comma + 1, list[count - 1], end)
}

/// The expression sets a property whose dot stands at `dot`: the object ends
/// there, and the property's name, a `=` and the value follow.
pub open spec fn set_at(tokens: Seq<Token>, start: int, e: Expr, dot: int, end: int) -> bool
    decreases e, ASSIGNMENT as int, 0int,
{
    match e {
        Expr::SetField { object, name, value } => {
            &&& derives(tokens, CALL as int, start, *object, dot)
            &&& is_at(tokens, dot, TokenType::Dot)
            &&& stands_at(tokens, dot + 1, name, TokenType::Identifier)
            &&& is_at(tokens, dot + 2, TokenType::Equal)
            &&& derives(tokens, ASSIGNMENT as int, dot + 3, *value, end)
        },
        _ => false,
    }
}

/// Marks three indices as those where a reading is cut in four.
pub open spec fn cuts(first: int, second: int, third: int) -> bool {
    true
}

/// The tokens from `start` up to `end` are the first `count` of the names,
/// separated by commas.
pub open spec fn named(tokens: Seq<Token>, start: int, names: Seq<Token>, count: int, end: int) -> bool
    decreases count,
{
    if count <= 0 || count > names.len() {
        start == end && count == 0
    } else if count == 1 {
        end == start + 1 && stands_at(tokens, start, names[0], TokenType::Identifier)
    } else {
        &&& named(tokens, start, names, count - 1, end - 2)
        &&& is_at(tokens, end - 2, TokenType::Comma)
        &&& stands_at(tokens, end - 1, names[count - 1], TokenType::Identifier)
    }
}

/// The tokens from `start` up to `end` are the declaration:
///
/// ```text
/// declaration = classDecl | funDecl | varDecl | statement
/// classDecl   = "class" IDENT (":" IDENT)? "{" function* "}"
/// funDecl     = "def" function
/// function    = IDENT "(" (IDENT ("," IDENT)*)? ")" block
/// varDecl     = "let" IDENT ("=" assignment)? ";"
/// ```
pub open spec fn declaration_at(tokens: Seq<Token>, start: int, s: Stmt, end: int) -> bool
    decreases s, 0int, 3int,
{
    match s {
        Stmt::Class { .. } => is_at(tokens, start, TokenType::Class) && class_at(
            tokens,
            start + 1,
            s,
            end,
        ),
        Stmt::Function { .. } => is_at(tokens, start, TokenType::Def) && function_at(
            tokens,
            start + 1,
            s,
            end,
        ),
        Stmt::Var { .. } => is_at(tokens, start, TokenType::Let) && variable_at(
            tokens,
            start + 1,
            s,
            end,
        ),
        _ => statement_at(tokens, start, s, end),
    }
}

/// The tokens from `start` up to `end` are the statement:
///
/// ```text
/// statement  = exprStmt | forStmt | ifStmt | printStmt
///            | returnStmt | whileStmt | block
/// exprStmt   = assignment ";"
/// printStmt  = "print" assignment ";"
/// returnStmt = "return" assignment? ";"
/// block      = "{" declaration* "}"
/// ifStmt     = "if" "(" assignment ")" statement ("else" statement)?
/// whileStmt  = "while" "(" assignment ")" statement
/// forStmt    = "for" "(" (varDecl | exprStmt | ";")
///              assignment? ";" assignment? ")" statement
/// ```
///
/// A `for` loop is read as the block and the `while` loop that do the same.
pub open spec fn statement_at(tokens: Seq<Token>, start: int, s: Stmt, end: int) -> bool
    decreases s, 0int, 2int,
{
    ||| is_at(tokens, start, TokenType::For) && for_at(tokens, start + 1, s, end)
    ||| match s {
        Stmt::If { .. } => is_at(tokens, start, TokenType::If) && if_at(tokens, start + 1, s, end),
        Stmt::While { .. } => is_at(tokens, start, TokenType::While) && while_at(
            tokens,
            start + 1,
            s,
            end,
        ),
        Stmt::Print(e) => {
            &&& is_at(tokens, start, TokenType::Print)
            &&& derives(tokens, ASSIGNMENT as int, start + 1, e, end - 1)
            &&& is_at(tokens, end - 1, TokenType::Semi)
        },
        Stmt::Return { keyword, value } => {
            &&& stands_at(tokens, start, keyword, TokenType::Return)
            &&& match value {
                None => end == start + 2,
                Some(e) => !is_at(tokens, start + 1, TokenType::Semi) && derives(
                    tokens,
                    ASSIGNMENT as int,
                    start + 1,
                    e,
                    end - 1,
                ),
            }
            &&& is_at(tokens, end - 1, TokenType::Semi)
        },
        Stmt::Block(statements) => is_at(tokens, start, TokenType::LeftBrace) && block_at(
            tokens,
            start + 1,
            statements@,
            end,
        ),
        Stmt::Expression(e) => {
            &&& derives(tokens, ASSIGNMENT as int, start, e, end - 1)
            &&& is_at(tokens, end - 1, TokenType::Semi)
        },
        _ => false,
    }
}

/// The tokens from `start` up to `end` are the declarations of a block and
/// its closing brace.
pub open spec fn block_at(tokens: Seq<Token>, start: int, statements: Seq<Stmt>, end: int) -> bool
    decreases statements, statements.len() + 1, 0int,
{
    &&& sequence_at(tokens, start, statements, statements.len() as int, end - 1)
    &&& is_at(tokens, end - 1, TokenType::RightBrace)
}

/// The tokens from `start` up to `end` are the first `count` of the
/// declarations, one after the other.
pub open spec fn sequence_at(
    tokens: Seq<Token>,
    start: int,
    list: Seq<Stmt>,
    count: int,
    end: int,
) -> bool
    decreases list, count, 1int,
{
    if count <= 0 || count > list.len() {
        start == end && count == 0
    } else {
        exists|mid: int| #[trigger] cut(mid) && sequence_to(tokens, start, list, count, mid, end)
    }
}

/// The last of the first `count` declarations starts at `mid`, where the
/// ones before it end.
pub open spec fn sequence_to(
    tokens: Seq<Token>,
    start: int,
    list: Seq<Stmt>,
    count: int,
    mid: int,
    end: int,
) -> bool
    decreases list, count, 0int,
{
    &&& 0 < count <= list.len()
    &&& sequence_at(tokens, start, list, count - 1, mid)
    &&& declaration_at(tokens, mid, list[count - 1], end)
}

/// The tokens from `start` up to `end` are the first `count` of the methods
/// of a class, one after the other.
pub open spec fn methods_at(
    tokens: Seq<Token>,
    start: int,
    list: Seq<Stmt>,
    count: int,
    end: int,
) -> bool
    decreases list, count, 1int,
{
    if count <= 0 || count > list.len() {
        start == end && count == 0
    } else {
        exists|mid: int| #[trigger] cut(mid) && methods_to(tokens, start, list, count, mid, end)
    }
}

/// The last of the first `count` methods starts at `mid`, where the ones
/// before it end.
pub open spec fn methods_to(
    tokens: Seq<Token>,
    start: int,
    list: Seq<Stmt>,
    count: int,
    mid: int,
    end: int,
) -> bool
    decreases list, count, 0int,
{
    &&& 0 < count <= list.len()
    &&& methods_at(tokens, start, list, count - 1, mid)
    &&& function_at(tokens, mid, list[count - 1], end)
}

/// No two of the names have the same text.
pub open spec fn distinct(names: Seq<Token>) -> bool {
    forall|i: int, j: int|
        #![trigger names[i], names[j]]
        0 <= i < j < names.len() ==> names[i].lexeme@ != names[j].lexeme@
}

/// The tokens from `start` up to `end` are the function, from its name on:
/// the name, the parameters in parentheses, no more than 255 and no two of
/// the same name, and the body.
pub open spec fn function_at(tokens: Seq<Token>, start: int, s: Stmt, end: int) -> bool
    decreases s, 0int, 1int,
{
    match s {
        Stmt::Function { name, params, body } => {
            &&& stands_at(tokens, start, name, TokenType::Identifier)
            &&& is_at(tokens, start + 1, TokenType::LeftParen)
            &&& params@.len() <= 255
            &&& distinct(params@)
            &&& exists|close: int|
                {
                    &&& #[trigger] cut(close)
                    &&& named(tokens, start + 2, params@, params@.len() as int, close)
                    &&& is_at(tokens, close, TokenType::RightParen)
                    &&& is_at(tokens, close + 1, TokenType::LeftBrace)
                    &&& block_at(tokens, close + 2, body@, end)
                }
        },
        _ => false,
    }
}

/// The tokens from `start` up to `end` are the class, from its name on: the
/// name, the superclass after a colon if there is one, and the methods in
/// braces.
pub open spec fn class_at(tokens: Seq<Token>, start: int, s: Stmt, end: int) -> bool
    decreases s, 0int, 1int,
{
    match s {
        Stmt::Class { name, superclass, methods } => {
            let brace = if superclass is Some {
                start + 3
            } else {
                start + 1
            };
            &&& stands_at(tokens, start, name, TokenType::Identifier)
            &&& superclass matches Some(parent) ==> {
                &&& is_at(tokens, start + 1, TokenType::Colon)
                &&& parent matches Expr::Variable { name: named }
                &&& stands_at(tokens, start + 2, named, TokenType::Identifier)
            }
            &&& is_at(tokens, brace, TokenType::LeftBrace)
            &&& methods_at(tokens, brace + 1, methods@, methods@.len() as int, end - 1)
            &&& is_at(tokens, end - 1, TokenType::RightBrace)
        },
        _ => false,
    }
}

/// The tokens from `start` up to `end` are the variable declaration, from
/// the name on.
pub open spec fn variable_at(tokens: Seq<Token>, start: int, s: Stmt, end: int) -> bool {
    match s {
        Stmt::Var { name, initializer } => {
            &&& stands_at(tokens, start, name, TokenType::Identifier)
            &&& match initializer {
                None => end == start + 2,
                Some(e) => is_at(tokens, start + 1, TokenType::Equal) && derives(
                    tokens,
                    ASSIGNMENT as int,
                    start + 2,
                    e,
                    end - 1,
                ),
            }
            &&& is_at(tokens, end - 1, TokenType::Semi)
        },
        _ => false,
    }
}

/// The tokens from `start` up to `end` are the `if` statement, from the
/// opening parenthesis on. An `else` belongs to the nearest `if`.
pub open spec fn if_at(tokens: Seq<Token>, start: int, s: Stmt, end: int) -> bool
    decreases s, 0int, 1int,
{
    match s {
        Stmt::If { condition, then_branch, else_branch } => {
            &&& is_at(tokens, start, TokenType::LeftParen)
            &&& exists|close: int, other: int|
                {
                    &&& #[trigger] cuts(close, other, end)
                    &&& derives(tokens, ASSIGNMENT as int, start + 1, condition, close)
                    &&& is_at(tokens, close, TokenType::RightParen)
                    &&& statement_at(tokens, close + 1, *then_branch, other)
                    &&& match *else_branch {
                        None => other == end && !is_at(tokens, end, TokenType::Else),
                        Some(otherwise) => is_at(tokens, other, TokenType::Else) && statement_at(
                            tokens,
                            other + 1,
                            otherwise,
                            end,
                        ),
                    }
                }
        },
        _ => false,
    }
}

/// The tokens from `start` up to `end` are the `while` statement, from the
/// opening parenthesis on.
pub open spec fn while_at(tokens: Seq<Token>, start: int, s: Stmt, end: int) -> bool
    decreases s, 0int, 1int,
{
    match s {
        Stmt::While { condition, body } => {
            &&& is_at(tokens, start, TokenType::LeftParen)
            &&& exists|close: int|
                {
                    &&& #[trigger] cut(close)
                    &&& derives(tokens, ASSIGNMENT as int, start + 1, condition, close)
                    &&& is_at(tokens, close, TokenType::RightParen)
                    &&& statement_at(tokens, close + 1, *body, end)
                }
        },
        _ => false,
    }
}

/// The tokens from `start` up to `end` are a `for` loop, from the opening
/// parenthesis on, and the statement is what the loop is written as: a
/// `while` loop whose condition is the loop's, or `true` for none, and whose
/// body is the loop's, or a block of the loop's body and its increment; and
/// around it, for a loop with an initializer, a block of the initializer and
/// the `while` loop.
pub open spec fn for_at(tokens: Seq<Token>, start: int, s: Stmt, end: int) -> bool
    decreases s, 0int, 1int,
{
    &&& is_at(tokens, start, TokenType::LeftParen)
    &&& exists|first: int, second: int, close: int|
        #[trigger] cuts(first, second, close) && for_to(tokens, start, s, first, second, close, end)
}

/// The `for` loop whose initializer ends at `first`, whose condition ends
/// with the semicolon at `second`, and whose increment ends with the
/// parenthesis at `close`.
pub open spec fn for_to(
    tokens: Seq<Token>,
    start: int,
    s: Stmt,
    first: int,
    second: int,
    close: int,
    end: int,
) -> bool
    decreases s, 0int, 0int,
{
    match s {
        Stmt::While { condition, body } => {
            &&& is_at(tokens, start + 1, TokenType::Semi)
            &&& first == start + 2
            &&& for_loop(tokens, condition, *body, first, second, close, end)
        },
        Stmt::Block(both) => {
            &&& both@.len() == 2
            &&& both@[1] matches Stmt::While { condition, body }
            &&& for_loop(tokens, condition, *body, first, second, close, end)
            &&& match both@[0] {
                Stmt::Var { .. } => is_at(tokens, start + 1, TokenType::Let) && variable_at(
                    tokens,
                    start + 2,
                    both@[0],
                    first,
                ),
                Stmt::Expression(e) => {
                    &&& !is_at(tokens, start + 1, TokenType::Semi)
                    &&& !is_at(tokens, start + 1, TokenType::Let)
                    &&& derives(tokens, ASSIGNMENT as int, start + 1, e, first - 1)
                    &&& is_at(tokens, first - 1, TokenType::Semi)
                },
                _ => false,
            }
        },
        _ => false,
    }
}

/// The condition, the increment and the body of a `for` loop, from `first`
/// on.
pub open spec fn for_loop(
    tokens: Seq<Token>,
    condition: Expr,
    body: Stmt,
    first: int,
    second: int,
    close: int,
    end: int,
) -> bool
    decreases body, 1int, 0int,
{
    &&& if first == second {
        condition == (Expr::Literal { value: Literal::Boolean(true) })
    } else {
        derives(tokens, ASSIGNMENT as int, first, condition, second)
    }
    &&& is_at(tokens, second, TokenType::Semi)
    &&& is_at(tokens, close, TokenType::RightParen)
    &&& if close == second + 1 {
        statement_at(tokens, close + 1, body, end)
    } else {
        &&& body matches Stmt::Block(pair)
        &&& pair@.len() == 2
        &&& pair@[1] matches Stmt::Expression(increment)
        &&& derives(tokens, ASSIGNMENT as int, second + 1, increment, close)
        &&& statement_at(tokens, close + 1, pair@[0], end)
    }
}

/// The tokens are a program: its declarations, one after the other.
pub open spec fn program(tokens: Seq<Token>, statements: Seq<Stmt>) -> bool {
    sequence_at(tokens, 0, statements, statements.len() as int, tokens.len() as int)
}

/// Where the names of a list stand: each at an even distance from the start,
/// with a comma after it but for the last, and the list ends after the last.
pub proof fn lemma_named_at(
    tokens: Seq<Token>,
    start: int,
    names: Seq<Token>,
    count: int,
    end: int,
    i: int,
)
    requires
        named(tokens, start, names, count, end),
        0 <= i < count,
    ensures
        end == start + 2 * count - 1,
        stands_at(tokens, start + 2 * i, names[i], TokenType::Identifier),
        i < count - 1 ==> is_at(tokens, start + 2 * i + 1, TokenType::Comma),
    decreases count,
{
    if count > 1 {
        lemma_named_at(tokens, start, names, count - 1, end - 2, if i < count - 1 {
            i
        } else {
            0
        });
    }
}

/// No function has more than 255 parameters: where 256 names are listed
/// after the opening parenthesis, the tokens are no function.
pub proof fn lemma_too_many_parameters(
    tokens: Seq<Token>,
    start: int,
    s: Stmt,
    end: int,
    names: Seq<Token>,
    after: int,
)
    requires
        named(tokens, start + 2, names, 256, after),
    ensures
        !function_at(tokens, start, s, end),
{
    if function_at(tokens, start, s, end) {
        match s {
            Stmt::Function { name, params, body } => {
                let close = choose|close: int|
                    {
                        &&& #[trigger] cut(close)
                        &&& named(tokens, start + 2, params@, params@.len() as int, close)
                        &&& is_at(tokens, close, TokenType::RightParen)
                        &&& is_at(tokens, close + 1, TokenType::LeftBrace)
                        &&& block_at(tokens, close + 2, body@, end)
                    };
                let n = params@.len() as int;
                if n == 0 {
                    lemma_named_at(tokens, start + 2, names, 256, after, 0);
                } else {
                    lemma_named_at(tokens, start + 2, params@, n, close, n - 1);
                    lemma_named_at(tokens, start + 2, names, 256, after, n - 1);
                }
            },
            _ => {},
        }
    }
}

/// A statement is neither a class, nor a function, nor a variable
/// declaration, so that what is read as a statement is read as a declaration
/// too.
pub proof fn lemma_statement_kinds(tokens: Seq<Token>, start: int, s: Stmt, end: int)
    requires
        statement_at(tokens, start, s, end),
    ensures
        !(s is Class) && !(s is Function) && !(s is Var),
        declaration_at(tokens, start, s, end),
{
    if is_at(tokens, start, TokenType::For) && for_at(tokens, start + 1, s, end) {
        let (first, second, close) = choose|first: int, second: int, close: int|
            #[trigger] cuts(first, second, close) && for_to(
                tokens,
                start + 1,
                s,
                first,
                second,
                close,
                end,
            );
        assert(for_to(tokens, start + 1, s, first, second, close, end));
    }
}

/// Whether the first declarations of a list stand one after the other
/// depends on those declarations alone.
pub proof fn lemma_sequence_prefix(
    tokens: Seq<Token>,
    start: int,
    list: Seq<Stmt>,
    longer: Seq<Stmt>,
    count: int,
    end: int,
)
    requires
        sequence_at(tokens, start, list, count, end),
        0 <= count <= list.len() <= longer.len(),
        forall|i: int| 0 <= i < count ==> list[i] == longer[i],
    ensures
        sequence_at(tokens, start, longer, count, end),
    decreases count,
{
    if count > 0 {
        let mid = choose|mid: int|
            #[trigger] cut(mid) && sequence_to(tokens, start, list, count, mid, end);
        lemma_sequence_prefix(tokens, start, list, longer, count - 1, mid);
        assert(cut(mid) && sequence_to(tokens, start, longer, count, mid, end));
    }
}

/// Whether the first methods of a list stand one after the other depends on
/// those methods alone.
pub proof fn lemma_methods_prefix(
    tokens: Seq<Token>,
    start: int,
    list: Seq<Stmt>,
    longer: Seq<Stmt>,
    count: int,
    end: int,
)
    requires
        methods_at(tokens, start, list, count, end),
        0 <= count <= list.len() <= longer.len(),
        forall|i: int| 0 <= i < count ==> list[i] == longer[i],
    ensures
        methods_at(tokens, start, longer, count, end),
    decreases count,
{
    if count > 0 {
        let mid = choose|mid: int|
            #[trigger] cut(mid) && methods_to(tokens, start, list, count, mid, end);
        lemma_methods_prefix(tokens, start, list, longer, count - 1, mid);
        assert(cut(mid) && methods_to(tokens, start, longer, count, mid, end));
    }
}

/// Whether the first names of a list are listed depends on those names
/// alone.
pub proof fn lemma_named_prefix(
    tokens: Seq<Token>,
    start: int,
    names: Seq<Token>,
    longer: Seq<Token>,
    count: int,
    end: int,
)
    requires
        named(tokens, start, names, count, end),
        0 <= count <= names.len() <= longer.len(),
        forall|i: int| 0 <= i < count ==> names[i] == longer[i],
    ensures
        named(tokens, start, longer, count, end),
    decreases count,
{
    if count > 1 {
        lemma_named_prefix(tokens, start, names, longer, count - 1, end - 2);
    }
}

/// The level of the grammar that an expression belongs to by its outermost
/// form. An operation whose operator is none of its kind belongs to no
/// level.
pub open spec fn rank_of(e: Expr) -> int {
    match e {
        Expr::Literal { .. } | Expr::Variable { .. } | Expr::This { .. } | Expr::Super { .. }
        | Expr::Grouping { .. } => PRIMARY as int,
        Expr::Call { .. } | Expr::Get { .. } => CALL as int,
        Expr::Unary { .. } => UNARY as int,
        Expr::Binary { operator, .. } => if operator_of(FACTOR as int, operator.token_type) {
            FACTOR as int
        } else if operator_of(TERM as int, operator.token_type) {
            TERM as int
        } else if operator_of(COMPARISON as int, operator.token_type) {
            COMPARISON as int
        } else if operator_of(EQUALITY as int, operator.token_type) {
            EQUALITY as int
        } else {
            100
        },
        Expr::Logical { operator, .. } => if operator.token_type == TokenType::And {
            AND as int
        } else if operator.token_type == TokenType::Or {
            OR as int
        } else {
            100
        },
        Expr::Assign { .. } | Expr::SetField { .. } => ASSIGNMENT as int,
    }
}

/// What is read at a level belongs to that level or to a tighter one.
pub proof fn lemma_rank(tokens: Seq<Token>, level: int, start: int, e: Expr, end: int)
    requires
        derives(tokens, level, start, e, end),
    ensures
        rank_of(e) <= level || rank_of(e) <= PRIMARY,
        level > OR ==> rank_of(e) <= ASSIGNMENT,
    decreases
            if level > OR {
                ASSIGNMENT as int + 1
            } else if level < 0 {
                0
            } else {
                level
            },
{
    if level <= PRIMARY {
    } else if level == CALL {
        if !(e is Call) && !(e is Get) {
            lemma_rank(tokens, PRIMARY as int, start, e, end);
        }
    } else if level == UNARY {
        if !(e is Unary) {
            lemma_rank(tokens, CALL as int, start, e, end);
        }
    } else if level <= OR {
        if !operation_of(level, e) {
            lemma_rank(tokens, level - 1, start, e, end);
        }
    } else {
        if !(e is Assign) && !(e is SetField) {
            lemma_rank(tokens, OR as int, start, e, end);
        }
    }
}

/// What is read at a level is read the same at every looser level up to
/// `or`.
pub proof fn lemma_lift(tokens: Seq<Token>, level: int, upper: int, start: int, e: Expr, end: int)
    requires
        derives(tokens, level, start, e, end),
        PRIMARY <= level <= upper <= OR,
    ensures
        derives(tokens, upper, start, e, end),
    decreases upper - level,
{
    if level < upper {
        lemma_rank(tokens, level, start, e, end);
        assert(derives(tokens, level + 1, start, e, end));
        lemma_lift(tokens, level + 1, upper, start, e, end);
    }
}

/// What is read at a level and belongs to a tighter one is read the same at
/// every level between the two.
pub proof fn lemma_descend(
    tokens: Seq<Token>,
    level: int,
    lower: int,
    start: int,
    e: Expr,
    end: int,
)
    requires
        derives(tokens, level, start, e, end),
        PRIMARY <= lower <= level <= OR,
        rank_of(e) <= lower,
    ensures
        derives(tokens, lower, start, e, end),
    decreases level - lower,
{
    if lower < level {
        assert(derives(tokens, level - 1, start, e, end));
        lemma_descend(tokens, level - 1, lower, start, e, end);
    }
}

/// Whether the first expressions of a list are listed depends on those
/// expressions alone.
pub proof fn lemma_listed_prefix(
    tokens: Seq<Token>,
    start: int,
    list: Seq<Expr>,
    longer: Seq<Expr>,
    count: int,
    end: int,
)
    requires
        listed(tokens, start, list, count, end),
        0 <= count <= list.len() <= longer.len(),
        forall|i: int| 0 <= i < count ==> list[i] == longer[i],
    ensures
        listed(tokens, start, longer, count, end),
    decreases count,
{
    if count > 1 {
        let comma = choose|comma: int|
            #[trigger] cut(comma) && listed_to(tokens, start, list, count, comma, end);
        lemma_listed_prefix(tokens, start, list, longer, count - 1, comma);
        assert(cut(comma) && listed_to(tokens, start, longer, count, comma, end));
    }
}


} // verus!
