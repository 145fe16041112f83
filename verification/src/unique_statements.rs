use vstd::prelude::*;
use crate::expr::Expr;
use crate::grammar::{
    block_at, class_at, cut, cuts, declaration_at, derives, distinct, for_at, for_loop, for_to,
    function_at, if_at, is_at, lemma_named_at, methods_at, methods_to, named, program, sequence_at,
    sequence_to, stands_at, statement_at, variable_at, while_at, ASSIGNMENT,
};
use crate::stmt::Stmt;
use crate::token::Token;
use crate::token_type::TokenType;
use crate::unique::{alike, lemma_span, lemma_whole, starts_expression};

verus! {

/// Two statements are alike: they are of the same form, hold the same
/// tokens, and their parts are alike, the statements of a list one by one.
pub open spec fn alike_stmt(a: Stmt, b: Stmt) -> bool
    decreases a,
{
    match a {
        Stmt::Expression(e) => match b {
            Stmt::Expression(other) => alike(e, other),
            _ => false,
        },
        Stmt::If { condition, then_branch, else_branch } => match b {
            Stmt::If { condition: c, then_branch: t, else_branch: o } => {
                &&& alike(condition, c)
                &&& alike_stmt(*then_branch, *t)
                &&& match *else_branch {
                    None => *o is None,
                    Some(otherwise) => match *o {
                        None => false,
                        Some(other) => alike_stmt(otherwise, other),
                    },
                }
            },
            _ => false,
        },
        Stmt::Print(e) => match b {
            Stmt::Print(other) => alike(e, other),
            _ => false,
        },
        Stmt::Return { keyword, value } => match b {
            Stmt::Return { keyword: k, value: v } => keyword == k && alike_or_none(value, v),
            _ => false,
        },
        Stmt::Var { name, initializer } => match b {
            Stmt::Var { name: n, initializer: i } => name == n && alike_or_none(initializer, i),
            _ => false,
        },
        Stmt::While { condition, body } => match b {
            Stmt::While { condition: c, body: other } => alike(condition, c) && alike_stmt(
                *body,
                *other,
            ),
            _ => false,
        },
        Stmt::Block(statements) => match b {
            Stmt::Block(others) => {
                &&& statements@.len() == others@.len()
                &&& forall|i: int|
                    0 <= i < statements@.len() ==> alike_stmt(#[trigger] statements@[i], others@[i])
            },
            _ => false,
        },
        Stmt::Function { name, params, body } => match b {
            Stmt::Function { name: n, params: p, body: others } => {
                &&& name == n
                &&& params@ == p@
                &&& body@.len() == others@.len()
                &&& forall|i: int|
                    0 <= i < body@.len() ==> alike_stmt(#[trigger] body@[i], others@[i])
            },
            _ => false,
        },
        Stmt::Class { name, superclass, methods } => match b {
            Stmt::Class { name: n, superclass: s, methods: others } => {
                &&& name == n
                &&& alike_or_none(superclass, s)
                &&& methods@.len() == others@.len()
                &&& forall|i: int|
                    0 <= i < methods@.len() ==> alike_stmt(#[trigger] methods@[i], others@[i])
            },
            _ => false,
        },
    }
}

/// Two expressions that may be missing are alike, or both are missing.
pub open spec fn alike_or_none(a: Option<Expr>, b: Option<Expr>) -> bool {
    match a {
        None => b is None,
        Some(e) => match b {
            None => false,
            Some(other) => alike(e, other),
        },
    }
}

/// The first `count` statements of two lists are alike, one by one.
pub open spec fn alike_stmts(a: Seq<Stmt>, b: Seq<Stmt>, count: int) -> bool {
    forall|i: int| 0 <= i < count ==> alike_stmt(#[trigger] a[i], b[i])
}

/// The kinds of tokens that a statement starts with.
pub open spec fn starts_any(kind: TokenType) -> bool {
    starts_expression(kind) || kind == TokenType::For || kind == TokenType::If || kind
        == TokenType::While || kind == TokenType::Print || kind == TokenType::Return || kind
        == TokenType::LeftBrace
}

/// A variable declaration, from its name on, is not empty and lies within
/// the tokens.
pub proof fn lemma_variable_span(tokens: Seq<Token>, start: int, s: Stmt, end: int)
    requires
        variable_at(tokens, start, s, end),
    ensures
        0 <= start,
        start + 1 < end <= tokens.len(),
        s is Var,
{
    match s {
        Stmt::Var { name, initializer } => {
            match initializer {
                Some(e) => {
                    lemma_span(tokens, ASSIGNMENT as int, start + 2, e, end - 1);
                },
                None => {},
            }
        },
        _ => {},
    }
}

/// The condition, the increment and the body of a `for` loop follow one
/// another within the tokens.
pub proof fn lemma_loop_span(
    tokens: Seq<Token>,
    condition: Expr,
    body: Stmt,
    first: int,
    second: int,
    close: int,
    end: int,
)
    requires
        for_loop(tokens, condition, body, first, second, close, end),
    ensures
        0 <= first <= second < close,
        close + 1 < end <= tokens.len(),
    decreases body, 1int, 0int,
{
    if first != second {
        lemma_span(tokens, ASSIGNMENT as int, first, condition, second);
    }
    if close == second + 1 {
        lemma_statement_span(tokens, close + 1, body, end);
    } else {
        match body {
            Stmt::Block(pair) => {
                match pair@[1] {
                    Stmt::Expression(increment) => {
                        lemma_span(tokens, ASSIGNMENT as int, second + 1, increment, close);
                        lemma_statement_span(tokens, close + 1, pair@[0], end);
                    },
                    _ => {},
                }
            },
            _ => {},
        }
    }
}

/// A statement is not empty, lies within the tokens, and starts with a
/// token that starts a statement.
pub proof fn lemma_statement_span(tokens: Seq<Token>, start: int, s: Stmt, end: int)
    requires
        statement_at(tokens, start, s, end),
    ensures
        0 <= start < end <= tokens.len(),
        starts_any(tokens[start].token_type),
    decreases s, 0int, 2int,
{
    if is_at(tokens, start, TokenType::For) && for_at(tokens, start + 1, s, end) {
        let (first, second, close) = choose|first: int, second: int, close: int|
            #[trigger] cuts(first, second, close) && for_to(
                tokens,
                start + 1,
                s,
                first,
                second,
                close,
                end,
            );
        match s {
            Stmt::While { condition, body } => {
                lemma_loop_span(tokens, condition, *body, first, second, close, end);
            },
            Stmt::Block(both) => {
                match both@[1] {
                    Stmt::While { condition, body } => {
                        lemma_loop_span(tokens, condition, *body, first, second, close, end);
                    },
                    _ => {},
                }
                match both@[0] {
                    Stmt::Var { .. } => {
                        lemma_variable_span(tokens, start + 3, both@[0], first);
                    },
                    Stmt::Expression(e) => {
                        lemma_span(tokens, ASSIGNMENT as int, start + 2, e, first - 1);
                    },
                    _ => {},
                }
            },
            _ => {},
        }
    } else {
        match s {
            Stmt::If { condition, then_branch, else_branch } => {
                let (close, other) = choose|close: int, other: int|
                    {
                        &&& #[trigger] cuts(close, other, end)
                        &&& derives(tokens, ASSIGNMENT as int, start + 2, condition, close)
                        &&& is_at(tokens, close, TokenType::RightParen)
                        &&& statement_at(tokens, close + 1, *then_branch, other)
                        &&& match *else_branch {
                            None => other == end && !is_at(tokens, end, TokenType::Else),
                            Some(otherwise) => is_at(tokens, other, TokenType::Else)
                                && statement_at(tokens, other + 1, otherwise, end),
                        }
                    };
                lemma_span(tokens, ASSIGNMENT as int, start + 2, condition, close);
                lemma_statement_span(tokens, close + 1, *then_branch, other);
                match *else_branch {
                    Some(otherwise) => {
                        lemma_statement_span(tokens, other + 1, otherwise, end);
                    },
                    None => {},
                }
            },
            Stmt::While { condition, body } => {
                let close = choose|close: int|
                    {
                        &&& #[trigger] cut(close)
                        &&& derives(tokens, ASSIGNMENT as int, start + 2, condition, close)
                        &&& is_at(tokens, close, TokenType::RightParen)
                        &&& statement_at(tokens, close + 1, *body, end)
                    };
                lemma_span(tokens, ASSIGNMENT as int, start + 2, condition, close);
                lemma_statement_span(tokens, close + 1, *body, end);
            },
            Stmt::Print(e) => {
                lemma_span(tokens, ASSIGNMENT as int, start + 1, e, end - 1);
            },
            Stmt::Return { keyword, value } => {
                match value {
                    Some(e) => {
                        lemma_span(tokens, ASSIGNMENT as int, start + 1, e, end - 1);
                    },
                    None => {},
                }
            },
            Stmt::Block(statements) => {
                lemma_sequence_span(
                    tokens,
                    start + 1,
                    statements@,
                    statements@.len() as int,
                    end - 1,
                );
            },
            Stmt::Expression(e) => {
                lemma_span(tokens, ASSIGNMENT as int, start, e, end - 1);
            },
            _ => {},
        }
    }
}

/// A list of declarations ends no earlier than it starts, and later if it
/// has a declaration.
pub proof fn lemma_sequence_span(
    tokens: Seq<Token>,
    start: int,
    list: Seq<Stmt>,
    count: int,
    end: int,
)
    requires
        sequence_at(tokens, start, list, count, end),
    ensures
        start <= end,
        0 < count <= list.len() ==> 0 <= start < end <= tokens.len(),
    decreases list, count, 1int,
{
    if 0 < count <= list.len() {
        let mid = choose|mid: int|
            #[trigger] cut(mid) && sequence_to(tokens, start, list, count, mid, end);
        lemma_sequence_span(tokens, start, list, count - 1, mid);
        lemma_declaration_span(tokens, mid, list[count - 1], end);
    }
}

/// A list of methods ends no earlier than it starts, and later if it has a
/// method.
pub proof fn lemma_methods_span(
    tokens: Seq<Token>,
    start: int,
    list: Seq<Stmt>,
    count: int,
    end: int,
)
    requires
        methods_at(tokens, start, list, count, end),
    ensures
        start <= end,
        0 < count <= list.len() ==> 0 <= start < end <= tokens.len(),
    decreases list, count, 1int,
{
    if 0 < count <= list.len() {
        let mid = choose|mid: int|
            #[trigger] cut(mid) && methods_to(tokens, start, list, count, mid, end);
        lemma_methods_span(tokens, start, list, count - 1, mid);
        lemma_function_span(tokens, mid, list[count - 1], end);
    }
}

/// A function, from its name on, is not empty and lies within the tokens.
pub proof fn lemma_function_span(tokens: Seq<Token>, start: int, s: Stmt, end: int)
    requires
        function_at(tokens, start, s, end),
    ensures
        0 <= start,
        start + 1 < end <= tokens.len(),
        is_at(tokens, start, TokenType::Identifier),
        s is Function,
    decreases s, 0int, 1int,
{
    match s {
        Stmt::Function { name, params, body } => {
            let close = choose|close: int|
                {
                    &&& #[trigger] cut(close)
                    &&& named(tokens, start + 2, params@, params@.len() as int, close)
                    &&& is_at(tokens, close, TokenType::RightParen)
                    &&& is_at(tokens, close + 1, TokenType::LeftBrace)
                    &&& block_at(tokens, close + 2, body@, end)
                };
            if params@.len() > 0 {
                lemma_named_at(tokens, start + 2, params@, params@.len() as int, close, 0);
            }
            lemma_sequence_span(tokens, close + 2, body@, body@.len() as int, end - 1);
        },
        _ => {},
    }
}

/// A declaration is not empty, lies within the tokens, and starts with a
/// token that starts a declaration.
pub proof fn lemma_declaration_span(tokens: Seq<Token>, start: int, s: Stmt, end: int)
    requires
        declaration_at(tokens, start, s, end),
    ensures
        0 <= start < end <= tokens.len(),
        starts_any(tokens[start].token_type) || tokens[start].token_type == TokenType::Class
            || tokens[start].token_type == TokenType::Def || tokens[start].token_type
            == TokenType::Let,
    decreases s, 0int, 3int,
{
    match s {
        Stmt::Class { name, superclass, methods } => {
            let brace = if superclass is Some {
                start + 4
            } else {
                start + 2
            };
            lemma_methods_span(tokens, brace + 1, methods@, methods@.len() as int, end - 1);
        },
        Stmt::Function { .. } => {
            lemma_function_span(tokens, start + 1, s, end);
        },
        Stmt::Var { .. } => {
            lemma_variable_span(tokens, start + 1, s, end);
        },
        _ => {
            lemma_statement_span(tokens, start, s, end);
        },
    }
}

/// Two lists of parameters read from one token on, each up to a closing
/// parenthesis, are the same, and end at the same token.
pub proof fn lemma_names_unique(
    tokens: Seq<Token>,
    start: int,
    n1: Seq<Token>,
    c1: int,
    n2: Seq<Token>,
    c2: int,
)
    requires
        named(tokens, start, n1, n1.len() as int, c1),
        is_at(tokens, c1, TokenType::RightParen),
        named(tokens, start, n2, n2.len() as int, c2),
        is_at(tokens, c2, TokenType::RightParen),
    ensures
        n1 == n2,
        c1 == c2,
{
    let k1 = n1.len() as int;
    let k2 = n2.len() as int;
    if k1 > 0 {
        lemma_named_at(tokens, start, n1, k1, c1, 0);
    }
    if k2 > 0 {
        lemma_named_at(tokens, start, n2, k2, c2, 0);
    }
    if k1 > 0 && k2 > 0 {
        if k1 < k2 {
            lemma_named_at(tokens, start, n2, k2, c2, k1 - 1);
        } else if k2 < k1 {
            lemma_named_at(tokens, start, n1, k1, c1, k2 - 1);
        } else {
            assert forall|i: int| 0 <= i < k1 implies n1[i] == n2[i] by {
                lemma_named_at(tokens, start, n1, k1, c1, i);
                lemma_named_at(tokens, start, n2, k2, c2, i);
            }
            assert(n1 =~= n2);
        }
    } else {
        assert(n1 =~= n2);
    }
}

/// Two variable declarations read from one token on are alike and end at
/// the same token.
pub proof fn lemma_variable_unique(
    tokens: Seq<Token>,
    start: int,
    s1: Stmt,
    end1: int,
    s2: Stmt,
    end2: int,
)
    requires
        variable_at(tokens, start, s1, end1),
        variable_at(tokens, start, s2, end2),
    ensures
        end1 == end2,
        alike_stmt(s1, s2),
{
    lemma_variable_span(tokens, start, s1, end1);
    lemma_variable_span(tokens, start, s2, end2);
    match s1 {
        Stmt::Var { name: n1, initializer: Some(e1) } => {
            match s2 {
                Stmt::Var { name: n2, initializer: Some(e2) } => {
                    lemma_whole(tokens, start + 2, e1, end1 - 1, e2, end2 - 1);
                },
                _ => {},
            }
        },
        _ => {},
    }
}

/// Where the parts of a `for` loop end: the initializer, the condition and
/// the increment.
pub proof fn lemma_for_parts(tokens: Seq<Token>, start: int, s: Stmt, end: int) -> (w: (
    int,
    int,
    int,
))
    requires
        for_at(tokens, start, s, end),
    ensures
        for_to(tokens, start, s, w.0, w.1, w.2, end),
        is_at(tokens, start, TokenType::LeftParen),
        start + 1 < w.0 <= tokens.len(),
{
    let (first, second, close) = choose|first: int, second: int, close: int|
        #[trigger] cuts(first, second, close) && for_to(
            tokens,
            start,
            s,
            first,
            second,
            close,
            end,
        );
    match s {
        Stmt::While { condition, body } => {
            lemma_loop_span(tokens, condition, *body, first, second, close, end);
        },
        Stmt::Block(both) => {
            match both@[1] {
                Stmt::While { condition, body } => {
                    lemma_loop_span(tokens, condition, *body, first, second, close, end);
                },
                _ => {},
            }
            match both@[0] {
                Stmt::Var { .. } => {
                    lemma_variable_span(tokens, start + 2, both@[0], first);
                },
                Stmt::Expression(e) => {
                    lemma_span(tokens, ASSIGNMENT as int, start + 1, e, first - 1);
                },
                _ => {},
            }
        },
        _ => {},
    }
    (first, second, close)
}

/// Where the condition and the first branch of an `if` end.
pub proof fn lemma_if_parts(tokens: Seq<Token>, start: int, s: Stmt, end: int) -> (w: (int, int))
    requires
        if_at(tokens, start, s, end),
    ensures
        s is If,
        is_at(tokens, start, TokenType::LeftParen),
        derives(tokens, ASSIGNMENT as int, start + 1, s->If_condition, w.0),
        is_at(tokens, w.0, TokenType::RightParen),
        statement_at(tokens, w.0 + 1, *s->If_then_branch, w.1),
        match *s->If_else_branch {
            None => w.1 == end && !is_at(tokens, end, TokenType::Else),
            Some(otherwise) => is_at(tokens, w.1, TokenType::Else) && statement_at(
                tokens,
                w.1 + 1,
                otherwise,
                end,
            ),
        },
        start + 1 < w.0,
        w.0 + 1 < w.1 <= end <= tokens.len(),
{
    match s {
        Stmt::If { condition, then_branch, else_branch } => {
            let (close, other) = choose|close: int, other: int|
                {
                    &&& #[trigger] cuts(close, other, end)
                    &&& derives(tokens, ASSIGNMENT as int, start + 1, condition, close)
                    &&& is_at(tokens, close, TokenType::RightParen)
                    &&& statement_at(tokens, close + 1, *then_branch, other)
                    &&& match *else_branch {
                        None => other == end && !is_at(tokens, end, TokenType::Else),
                        Some(otherwise) => is_at(tokens, other, TokenType::Else) && statement_at(
                            tokens,
                            other + 1,
                            otherwise,
                            end,
                        ),
                    }
                };
            lemma_span(tokens, ASSIGNMENT as int, start + 1, condition, close);
            lemma_statement_span(tokens, close + 1, *then_branch, other);
            match *else_branch {
                Some(otherwise) => {
                    lemma_statement_span(tokens, other + 1, otherwise, end);
                },
                None => {},
            }
            (close, other)
        },
        _ => (0, 0),
    }
}

/// Where the condition of a `while` loop ends.
pub proof fn lemma_while_parts(tokens: Seq<Token>, start: int, s: Stmt, end: int) -> (close: int)
    requires
        while_at(tokens, start, s, end),
    ensures
        s is While,
        is_at(tokens, start, TokenType::LeftParen),
        derives(tokens, ASSIGNMENT as int, start + 1, s->While_condition, close),
        is_at(tokens, close, TokenType::RightParen),
        statement_at(tokens, close + 1, *s->While_body, end),
        start + 1 < close,
        close + 1 < end <= tokens.len(),
{
    match s {
        Stmt::While { condition, body } => {
            let close = choose|close: int|
                {
                    &&& #[trigger] cut(close)
                    &&& derives(tokens, ASSIGNMENT as int, start + 1, condition, close)
                    &&& is_at(tokens, close, TokenType::RightParen)
                    &&& statement_at(tokens, close + 1, *body, end)
                };
            lemma_span(tokens, ASSIGNMENT as int, start + 1, condition, close);
            lemma_statement_span(tokens, close + 1, *body, end);
            close
        },
        _ => 0,
    }
}

/// Where the parameters of a function end.
pub proof fn lemma_function_parts(tokens: Seq<Token>, start: int, s: Stmt, end: int) -> (close:
    int)
    requires
        function_at(tokens, start, s, end),
    ensures
        s is Function,
        stands_at(tokens, start, s->Function_name, TokenType::Identifier),
        is_at(tokens, start + 1, TokenType::LeftParen),
        s->Function_params@.len() <= 255,
        distinct(s->Function_params@),
        named(tokens, start + 2, s->Function_params@, s->Function_params@.len() as int, close),
        is_at(tokens, close, TokenType::RightParen),
        is_at(tokens, close + 1, TokenType::LeftBrace),
        block_at(tokens, close + 2, s->Function_body@, end),
        start + 2 <= close,
        close + 2 < end <= tokens.len(),
{
    match s {
        Stmt::Function { name, params, body } => {
            let close = choose|close: int|
                {
                    &&& #[trigger] cut(close)
                    &&& named(tokens, start + 2, params@, params@.len() as int, close)
                    &&& is_at(tokens, close, TokenType::RightParen)
                    &&& is_at(tokens, close + 1, TokenType::LeftBrace)
                    &&& block_at(tokens, close + 2, body@, end)
                };
            if params@.len() > 0 {
                lemma_named_at(tokens, start + 2, params@, params@.len() as int, close, 0);
            }
            lemma_sequence_span(tokens, close + 2, body@, body@.len() as int, end - 1);
            close
        },
        _ => 0,
    }
}

/// Where the last declaration of a list starts.
pub proof fn lemma_last_declaration(
    tokens: Seq<Token>,
    start: int,
    list: Seq<Stmt>,
    count: int,
    end: int,
) -> (mid: int)
    requires
        sequence_at(tokens, start, list, count, end),
        0 < count <= list.len(),
    ensures
        0 <= start <= mid < end <= tokens.len(),
        sequence_at(tokens, start, list, count - 1, mid),
        declaration_at(tokens, mid, list[count - 1], end),
{
    let mid = choose|mid: int|
        #[trigger] cut(mid) && sequence_to(tokens, start, list, count, mid, end);
    lemma_sequence_span(tokens, start, list, count - 1, mid);
    lemma_sequence_span(tokens, start, list, count, end);
    lemma_declaration_span(tokens, mid, list[count - 1], end);
    mid
}

/// Where the last method of a list starts.
pub proof fn lemma_last_method(
    tokens: Seq<Token>,
    start: int,
    list: Seq<Stmt>,
    count: int,
    end: int,
) -> (mid: int)
    requires
        methods_at(tokens, start, list, count, end),
        0 < count <= list.len(),
    ensures
        0 <= start <= mid < end <= tokens.len(),
        methods_at(tokens, start, list, count - 1, mid),
        function_at(tokens, mid, list[count - 1], end),
{
    let mid = choose|mid: int|
        #[trigger] cut(mid) && methods_to(tokens, start, list, count, mid, end);
    lemma_methods_span(tokens, start, list, count - 1, mid);
    lemma_methods_span(tokens, start, list, count, end);
    lemma_function_span(tokens, mid, list[count - 1], end);
    mid
}

/// What is read as a statement from a `for` on is a `for` loop.
pub proof fn lemma_for_kind(tokens: Seq<Token>, start: int, s: Stmt, end: int)
    requires
        statement_at(tokens, start, s, end),
        is_at(tokens, start, TokenType::For),
    ensures
        for_at(tokens, start + 1, s, end),
{
    if !for_at(tokens, start + 1, s, end) {
        match s {
            Stmt::Expression(e) => {
                lemma_span(tokens, ASSIGNMENT as int, start, e, end - 1);
            },
            _ => {},
        }
    }
}

/// Every reading of a statement is the only one: two statements read from
/// one token on are alike and end at the same token.
pub proof fn lemma_statement_unique(
    tokens: Seq<Token>,
    start: int,
    s1: Stmt,
    end1: int,
    s2: Stmt,
    end2: int,
)
    requires
        statement_at(tokens, start, s1, end1),
        statement_at(tokens, start, s2, end2),
    ensures
        end1 == end2,
        alike_stmt(s1, s2),
    decreases tokens.len() - start, 20int, 0int, 0int,
{
    lemma_statement_span(tokens, start, s1, end1);
    lemma_statement_span(tokens, start, s2, end2);
    if is_at(tokens, start, TokenType::For) {
        lemma_for_kind(tokens, start, s1, end1);
        lemma_for_kind(tokens, start, s2, end2);
        lemma_for_unique(tokens, start + 1, s1, end1, s2, end2);
    } else {
        match s1 {
            Stmt::Expression(e) => {
                lemma_span(tokens, ASSIGNMENT as int, start, e, end1 - 1);
            },
            _ => {},
        }
        match s2 {
            Stmt::Expression(e) => {
                lemma_span(tokens, ASSIGNMENT as int, start, e, end2 - 1);
            },
            _ => {},
        }
        match s1 {
            Stmt::If { .. } => {
                lemma_if_unique(tokens, start + 1, s1, end1, s2, end2);
            },
            Stmt::While { .. } => {
                lemma_while_unique(tokens, start + 1, s1, end1, s2, end2);
            },
            Stmt::Print(e1) => {
                match s2 {
                    Stmt::Print(e2) => {
                        lemma_whole(tokens, start + 1, e1, end1 - 1, e2, end2 - 1);
                    },
                    _ => {},
                }
            },
            Stmt::Return { keyword: k1, value: Some(e1) } => {
                match s2 {
                    Stmt::Return { keyword: k2, value: Some(e2) } => {
                        lemma_whole(tokens, start + 1, e1, end1 - 1, e2, end2 - 1);
                    },
                    _ => {},
                }
            },
            Stmt::Block(b1) => {
                match s2 {
                    Stmt::Block(b2) => {
                        lemma_block_unique(tokens, start + 1, b1@, end1, b2@, end2);
                    },
                    _ => {},
                }
            },
            Stmt::Expression(e1) => {
                match s2 {
                    Stmt::Expression(e2) => {
                        lemma_whole(tokens, start, e1, end1 - 1, e2, end2 - 1);
                    },
                    _ => {},
                }
            },
            _ => {},
        }
    }
}

/// Two `if` statements read from one opening parenthesis on.
proof fn lemma_if_unique(
    tokens: Seq<Token>,
    start: int,
    s1: Stmt,
    end1: int,
    s2: Stmt,
    end2: int,
)
    requires
        is_at(tokens, start - 1, TokenType::If),
        if_at(tokens, start, s1, end1),
        statement_at(tokens, start - 1, s2, end2),
    ensures
        end1 == end2,
        alike_stmt(s1, s2),
    decreases tokens.len() - start, 18int, 0int, 0int,
{
    let (c1, o1) = lemma_if_parts(tokens, start, s1, end1);
    if s2 is If {
        let (c2, o2) = lemma_if_parts(tokens, start, s2, end2);
        lemma_whole(tokens, start + 1, s1->If_condition, c1, s2->If_condition, c2);
        lemma_statement_unique(tokens, c1 + 1, *s1->If_then_branch, o1, *s2->If_then_branch, o2);
        match *s1->If_else_branch {
            Some(x1) => {
                match *s2->If_else_branch {
                    Some(x2) => {
                        lemma_statement_unique(tokens, o1 + 1, x1, end1, x2, end2);
                    },
                    None => {},
                }
            },
            None => {},
        }
    } else {
        match s2 {
            Stmt::Expression(e) => {
                lemma_span(tokens, ASSIGNMENT as int, start - 1, e, end2 - 1);
            },
            _ => {},
        }
    }
}

/// Two `while` loops read from one opening parenthesis on.
proof fn lemma_while_unique(
    tokens: Seq<Token>,
    start: int,
    s1: Stmt,
    end1: int,
    s2: Stmt,
    end2: int,
)
    requires
        is_at(tokens, start - 1, TokenType::While),
        while_at(tokens, start, s1, end1),
        statement_at(tokens, start - 1, s2, end2),
    ensures
        end1 == end2,
        alike_stmt(s1, s2),
    decreases tokens.len() - start, 18int, 0int, 0int,
{
    let c1 = lemma_while_parts(tokens, start, s1, end1);
    if s2 is While {
        let c2 = lemma_while_parts(tokens, start, s2, end2);
        lemma_whole(tokens, start + 1, s1->While_condition, c1, s2->While_condition, c2);
        lemma_statement_unique(tokens, c1 + 1, *s1->While_body, end1, *s2->While_body, end2);
    } else {
        match s2 {
            Stmt::Expression(e) => {
                lemma_span(tokens, ASSIGNMENT as int, start - 1, e, end2 - 1);
            },
            _ => {},
        }
    }
}

/// The conditions, the increments and the bodies of two `for` loops read
/// from one token on.
proof fn lemma_loop_unique(
    tokens: Seq<Token>,
    first: int,
    cond1: Expr,
    body1: Stmt,
    second1: int,
    close1: int,
    end1: int,
    cond2: Expr,
    body2: Stmt,
    second2: int,
    close2: int,
    end2: int,
)
    requires
        for_loop(tokens, cond1, body1, first, second1, close1, end1),
        for_loop(tokens, cond2, body2, first, second2, close2, end2),
    ensures
        end1 == end2,
        alike(cond1, cond2),
        alike_stmt(body1, body2),
    decreases tokens.len() - first, 18int, 0int, 0int,
{
    lemma_loop_span(tokens, cond1, body1, first, second1, close1, end1);
    lemma_loop_span(tokens, cond2, body2, first, second2, close2, end2);
    if first != second1 {
        lemma_span(tokens, ASSIGNMENT as int, first, cond1, second1);
    }
    if first != second2 {
        lemma_span(tokens, ASSIGNMENT as int, first, cond2, second2);
    }
    if first != second1 && first != second2 {
        lemma_whole(tokens, first, cond1, second1, cond2, second2);
    }
    assert(second1 == second2);
    let second = second1;
    match body1 {
        Stmt::Block(pair1) => {
            if close1 != second + 1 {
                match pair1@[1] {
                    Stmt::Expression(i1) => {
                        lemma_span(tokens, ASSIGNMENT as int, second + 1, i1, close1);
                    },
                    _ => {},
                }
            }
        },
        _ => {},
    }
    match body2 {
        Stmt::Block(pair2) => {
            if close2 != second + 1 {
                match pair2@[1] {
                    Stmt::Expression(i2) => {
                        lemma_span(tokens, ASSIGNMENT as int, second + 1, i2, close2);
                    },
                    _ => {},
                }
            }
        },
        _ => {},
    }
    if close1 == second + 1 || close2 == second + 1 {
        assert(close1 == close2);
        lemma_statement_unique(tokens, close1 + 1, body1, end1, body2, end2);
    } else {
        match body1 {
            Stmt::Block(pair1) => {
                match body2 {
                    Stmt::Block(pair2) => {
                        match pair1@[1] {
                            Stmt::Expression(i1) => {
                                match pair2@[1] {
                                    Stmt::Expression(i2) => {
                                        lemma_whole(tokens, second + 1, i1, close1, i2, close2);
                                        lemma_statement_unique(
                                            tokens,
                                            close1 + 1,
                                            pair1@[0],
                                            end1,
                                            pair2@[0],
                                            end2,
                                        );
                                        assert forall|i: int| 0 <= i < 2 implies alike_stmt(
                                            #[trigger] pair1@[i],
                                            pair2@[i],
                                        ) by {
                                            if i == 0 {
                                            } else {
                                                assert(alike_stmt(pair1@[1], pair2@[1]));
                                            }
                                        }
                                    },
                                    _ => {},
                                }
                            },
                            _ => {},
                        }
                    },
                    _ => {},
                }
            },
            _ => {},
        }
    }
}

/// Two `for` loops read from one opening parenthesis on.
proof fn lemma_for_unique(
    tokens: Seq<Token>,
    start: int,
    s1: Stmt,
    end1: int,
    s2: Stmt,
    end2: int,
)
    requires
        for_at(tokens, start, s1, end1),
        for_at(tokens, start, s2, end2),
    ensures
        end1 == end2,
        alike_stmt(s1, s2),
    decreases tokens.len() - start, 19int, 0int, 0int,
{
    let (f1, c1, p1) = lemma_for_parts(tokens, start, s1, end1);
    let (f2, c2, p2) = lemma_for_parts(tokens, start, s2, end2);
    match s1 {
        Stmt::While { condition: cond1, body: body1 } => {
            match s2 {
                Stmt::While { condition: cond2, body: body2 } => {
                    lemma_loop_unique(
                        tokens,
                        f1,
                        cond1,
                        *body1,
                        c1,
                        p1,
                        end1,
                        cond2,
                        *body2,
                        c2,
                        p2,
                        end2,
                    );
                },
                _ => {},
            }
        },
        Stmt::Block(both1) => {
            match s2 {
                Stmt::Block(both2) => {
                    match both1@[0] {
                        Stmt::Var { .. } => {
                            if both2@[0] is Var {
                                lemma_variable_unique(
                                    tokens,
                                    start + 2,
                                    both1@[0],
                                    f1,
                                    both2@[0],
                                    f2,
                                );
                            }
                        },
                        Stmt::Expression(e1) => {
                            match both2@[0] {
                                Stmt::Expression(e2) => {
                                    lemma_whole(tokens, start + 1, e1, f1 - 1, e2, f2 - 1);
                                },
                                _ => {},
                            }
                        },
                        _ => {},
                    }
                    assert(f1 == f2);
                    match both1@[1] {
                        Stmt::While { condition: cond1, body: body1 } => {
                            match both2@[1] {
                                Stmt::While { condition: cond2, body: body2 } => {
                                    lemma_loop_unique(
                                        tokens,
                                        f1,
                                        cond1,
                                        *body1,
                                        c1,
                                        p1,
                                        end1,
                                        cond2,
                                        *body2,
                                        c2,
                                        p2,
                                        end2,
                                    );
                                    assert(alike_stmt(both1@[0], both2@[0]));
                                    assert(alike_stmt(both1@[1], both2@[1]));
                                    assert forall|i: int| 0 <= i < 2 implies alike_stmt(
                                        #[trigger] both1@[i],
                                        both2@[i],
                                    ) by {
                                        if i == 0 {
                                        } else {
                                            assert(i == 1);
                                        }
                                    }
                                },
                                _ => {},
                            }
                        },
                        _ => {},
                    }
                },
                _ => {},
            }
        },
        _ => {},
    }
}

/// Of two lists of declarations read from one token on, the one that ends
/// first has no more declarations than the other, and they are alike one by
/// one. They are as long if they end at the same token; if not, the
/// longer one reads its next declaration from the end of the shorter one:
/// the lemma gives the index where that declaration ends.
pub proof fn lemma_sequence_unique(
    tokens: Seq<Token>,
    start: int,
    l1: Seq<Stmt>,
    k1: int,
    m1: int,
    l2: Seq<Stmt>,
    k2: int,
    m2: int,
) -> (w: int)
    requires
        sequence_at(tokens, start, l1, k1, m1),
        sequence_at(tokens, start, l2, k2, m2),
        0 <= k1 <= l1.len(),
        0 <= k2 <= l2.len(),
        m1 <= m2,
    ensures
        k1 <= k2,
        alike_stmts(l1, l2, k1),
        m1 == m2 ==> k1 == k2,
        m1 < m2 ==> k1 < k2 && declaration_at(tokens, m1, l2[k1], w) && w <= m2,
    decreases tokens.len() - start, 22int, m1 + m2, 0int,
{
    lemma_sequence_span(tokens, start, l1, k1, m1);
    lemma_sequence_span(tokens, start, l2, k2, m2);
    if k2 == 0 {
        0
    } else {
        let mid2 = lemma_last_declaration(tokens, start, l2, k2, m2);
        if m1 <= mid2 {
            let w = lemma_sequence_unique(tokens, start, l1, k1, m1, l2, k2 - 1, mid2);
            if m1 == mid2 {
                m2
            } else {
                w
            }
        } else {
            let mid1 = lemma_last_declaration(tokens, start, l1, k1, m1);
            if mid1 == mid2 {
                lemma_sequence_unique(tokens, start, l1, k1 - 1, mid1, l2, k2 - 1, mid2);
                lemma_declaration_unique(tokens, mid1, l1[k1 - 1], m1, l2[k2 - 1], m2);
            } else if mid1 < mid2 {
                let w = lemma_sequence_unique(tokens, start, l1, k1 - 1, mid1, l2, k2 - 1, mid2);
                lemma_declaration_unique(tokens, mid1, l1[k1 - 1], m1, l2[k1 - 1], w);
            } else {
                let w = lemma_sequence_unique(tokens, start, l2, k2 - 1, mid2, l1, k1 - 1, mid1);
                lemma_declaration_unique(tokens, mid2, l1[k2 - 1], w, l2[k2 - 1], m2);
            }
            0
        }
    }
}

/// Two blocks read from one token on are as long and alike, and end at the
/// same token.
pub proof fn lemma_block_unique(
    tokens: Seq<Token>,
    start: int,
    b1: Seq<Stmt>,
    end1: int,
    b2: Seq<Stmt>,
    end2: int,
)
    requires
        block_at(tokens, start, b1, end1),
        block_at(tokens, start, b2, end2),
    ensures
        end1 == end2,
        b1.len() == b2.len(),
        alike_stmts(b1, b2, b1.len() as int),
    decreases tokens.len() - start, 23int, 0int, 0int,
{
    let k1 = b1.len() as int;
    let k2 = b2.len() as int;
    lemma_sequence_span(tokens, start, b1, k1, end1 - 1);
    lemma_sequence_span(tokens, start, b2, k2, end2 - 1);
    if end1 <= end2 {
        let w = lemma_sequence_unique(tokens, start, b1, k1, end1 - 1, b2, k2, end2 - 1);
        if end1 < end2 {
            lemma_declaration_span(tokens, end1 - 1, b2[k1], w);
        }
    } else {
        let w = lemma_sequence_unique(tokens, start, b2, k2, end2 - 1, b1, k1, end1 - 1);
        lemma_declaration_span(tokens, end2 - 1, b1[k2], w);
    }
}

/// Of two lists of methods read from one token on, the one that ends first
/// has no more methods than the other, and they are alike one by one. They
/// are as long if they end at the same token; if not, the longer one reads
/// its next method from the end of the shorter one: the lemma gives the
/// index where that method ends.
pub proof fn lemma_methods_unique(
    tokens: Seq<Token>,
    start: int,
    l1: Seq<Stmt>,
    k1: int,
    m1: int,
    l2: Seq<Stmt>,
    k2: int,
    m2: int,
) -> (w: int)
    requires
        methods_at(tokens, start, l1, k1, m1),
        methods_at(tokens, start, l2, k2, m2),
        0 <= k1 <= l1.len(),
        0 <= k2 <= l2.len(),
        m1 <= m2,
    ensures
        k1 <= k2,
        alike_stmts(l1, l2, k1),
        m1 == m2 ==> k1 == k2,
        m1 < m2 ==> k1 < k2 && function_at(tokens, m1, l2[k1], w) && w <= m2,
    decreases tokens.len() - start, 22int, m1 + m2, 0int,
{
    lemma_methods_span(tokens, start, l1, k1, m1);
    lemma_methods_span(tokens, start, l2, k2, m2);
    if k2 == 0 {
        0
    } else {
        let mid2 = lemma_last_method(tokens, start, l2, k2, m2);
        if m1 <= mid2 {
            let w = lemma_methods_unique(tokens, start, l1, k1, m1, l2, k2 - 1, mid2);
            if m1 == mid2 {
                m2
            } else {
                w
            }
        } else {
            let mid1 = lemma_last_method(tokens, start, l1, k1, m1);
            if mid1 == mid2 {
                lemma_methods_unique(tokens, start, l1, k1 - 1, mid1, l2, k2 - 1, mid2);
                lemma_function_unique(tokens, mid1, l1[k1 - 1], m1, l2[k2 - 1], m2);
            } else if mid1 < mid2 {
                let w = lemma_methods_unique(tokens, start, l1, k1 - 1, mid1, l2, k2 - 1, mid2);
                lemma_function_unique(tokens, mid1, l1[k1 - 1], m1, l2[k1 - 1], w);
            } else {
                let w = lemma_methods_unique(tokens, start, l2, k2 - 1, mid2, l1, k1 - 1, mid1);
                lemma_function_unique(tokens, mid2, l1[k2 - 1], w, l2[k2 - 1], m2);
            }
            0
        }
    }
}

/// Two functions read from one name on are alike and end at the same
/// token.
pub proof fn lemma_function_unique(
    tokens: Seq<Token>,
    start: int,
    s1: Stmt,
    end1: int,
    s2: Stmt,
    end2: int,
)
    requires
        function_at(tokens, start, s1, end1),
        function_at(tokens, start, s2, end2),
    ensures
        end1 == end2,
        alike_stmt(s1, s2),
    decreases tokens.len() - start, 19int, 0int, 0int,
{
    let c1 = lemma_function_parts(tokens, start, s1, end1);
    let c2 = lemma_function_parts(tokens, start, s2, end2);
    lemma_names_unique(tokens, start + 2, s1->Function_params@, c1, s2->Function_params@, c2);
    lemma_block_unique(tokens, c1 + 2, s1->Function_body@, end1, s2->Function_body@, end2);
}

/// Two classes read from one name on are alike and end at the same token.
pub proof fn lemma_class_unique(
    tokens: Seq<Token>,
    start: int,
    s1: Stmt,
    end1: int,
    s2: Stmt,
    end2: int,
)
    requires
        class_at(tokens, start, s1, end1),
        class_at(tokens, start, s2, end2),
    ensures
        end1 == end2,
        alike_stmt(s1, s2),
    decreases tokens.len() - start, 19int, 0int, 0int,
{
    match s1 {
        Stmt::Class { name: n1, superclass: p1, methods: m1 } => {
            match s2 {
                Stmt::Class { name: n2, superclass: p2, methods: m2 } => {
                    let brace = if p1 is Some {
                        start + 3
                    } else {
                        start + 1
                    };
                    assert(p1 is Some <==> p2 is Some);
                    let k1 = m1@.len() as int;
                    let k2 = m2@.len() as int;
                    lemma_methods_span(tokens, brace + 1, m1@, k1, end1 - 1);
                    lemma_methods_span(tokens, brace + 1, m2@, k2, end2 - 1);
                    if end1 <= end2 {
                        let w = lemma_methods_unique(
                            tokens,
                            brace + 1,
                            m1@,
                            k1,
                            end1 - 1,
                            m2@,
                            k2,
                            end2 - 1,
                        );
                        if end1 < end2 {
                            lemma_function_span(tokens, end1 - 1, m2@[k1], w);
                        }
                    } else {
                        let w = lemma_methods_unique(
                            tokens,
                            brace + 1,
                            m2@,
                            k2,
                            end2 - 1,
                            m1@,
                            k1,
                            end1 - 1,
                        );
                        lemma_function_span(tokens, end2 - 1, m1@[k2], w);
                    }
                },
                _ => {},
            }
        },
        _ => {},
    }
}

/// Every reading of a declaration is the only one: two declarations read
/// from one token on are alike and end at the same token.
pub proof fn lemma_declaration_unique(
    tokens: Seq<Token>,
    start: int,
    s1: Stmt,
    end1: int,
    s2: Stmt,
    end2: int,
)
    requires
        declaration_at(tokens, start, s1, end1),
        declaration_at(tokens, start, s2, end2),
    ensures
        end1 == end2,
        alike_stmt(s1, s2),
    decreases tokens.len() - start, 21int, 0int, 0int,
{
    lemma_declaration_span(tokens, start, s1, end1);
    lemma_declaration_span(tokens, start, s2, end2);
    let plain1 = !(s1 is Class) && !(s1 is Function) && !(s1 is Var);
    let plain2 = !(s2 is Class) && !(s2 is Function) && !(s2 is Var);
    if plain1 {
        lemma_statement_span(tokens, start, s1, end1);
    }
    if plain2 {
        lemma_statement_span(tokens, start, s2, end2);
    }
    if plain1 && plain2 {
        lemma_statement_unique(tokens, start, s1, end1, s2, end2);
    } else if s1 is Class && s2 is Class {
        lemma_class_unique(tokens, start + 1, s1, end1, s2, end2);
    } else if s1 is Function && s2 is Function {
        lemma_function_unique(tokens, start + 1, s1, end1, s2, end2);
    } else if s1 is Var && s2 is Var {
        lemma_variable_unique(tokens, start + 1, s1, end1, s2, end2);
    }
}

/// Every reading of a program is the only one: two lists of statements
/// that the same tokens are read as are as long, and alike one by one.
pub proof fn lemma_program_unique(tokens: Seq<Token>, p1: Seq<Stmt>, p2: Seq<Stmt>)
    requires
        program(tokens, p1),
        program(tokens, p2),
    ensures
        p1.len() == p2.len(),
        alike_stmts(p1, p2, p1.len() as int),
{
    let end = tokens.len() as int;
    lemma_sequence_unique(tokens, 0, p1, p1.len() as int, end, p2, p2.len() as int, end);
}

} // verus!
