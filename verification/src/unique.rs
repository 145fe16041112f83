use vstd::prelude::*;
use crate::expr::Expr;
use crate::grammar::{
    called_at, cut, derives, is_at, lemma_lift, listed, listed_to, operated_at, operation_of,
    operator_of, set_at, AND, ASSIGNMENT, CALL, COMPARISON, EQUALITY, FACTOR, OR, PRIMARY, TERM,
    UNARY,
};
use crate::token::Token;
use crate::token_type::TokenType;

verus! {

/// A token of the kind carries on an expression read at the level: after
/// what has been read, it makes a longer expression of the same level. These
/// are `(` and `.` from the level of calls on, and the operators of each
/// level of operations up to the level given.
pub open spec fn carries_on(level: int, kind: TokenType) -> bool {
    ||| level >= CALL && (kind == TokenType::LeftParen || kind == TokenType::Dot)
    ||| level >= FACTOR && operator_of(FACTOR as int, kind)
    ||| level >= TERM && operator_of(TERM as int, kind)
    ||| level >= COMPARISON && operator_of(COMPARISON as int, kind)
    ||| level >= EQUALITY && operator_of(EQUALITY as int, kind)
    ||| level >= AND && operator_of(AND as int, kind)
    ||| level >= OR && operator_of(OR as int, kind)
}

/// The token at the index carries on an expression read at the level.
pub open spec fn goes_on(tokens: Seq<Token>, level: int, at: int) -> bool {
    0 <= at < tokens.len() && carries_on(level, tokens[at].token_type)
}

/// The token at the index is an operator of the level.
pub open spec fn operator_at(tokens: Seq<Token>, level: int, at: int) -> bool {
    0 <= at < tokens.len() && operator_of(level, tokens[at].token_type)
}

/// The kinds of tokens that a primary expression starts with.
pub open spec fn starts_primary(kind: TokenType) -> bool {
    kind == TokenType::Nil || kind == TokenType::False || kind == TokenType::True || kind
        == TokenType::Number || kind == TokenType::SoxString || kind == TokenType::Super || kind
        == TokenType::This || kind == TokenType::Identifier || kind == TokenType::LeftParen
}

/// The kinds of tokens that an expression starts with.
pub open spec fn starts_expression(kind: TokenType) -> bool {
    starts_primary(kind) || kind == TokenType::Bang || kind == TokenType::Minus
}

/// The left operand of an operation.
pub open spec fn left_of(e: Expr) -> Expr {
    match e {
        Expr::Binary { left, .. } => *left,
        Expr::Logical { left, .. } => *left,
        _ => e,
    }
}

/// The right operand of an operation.
pub open spec fn right_of(e: Expr) -> Expr {
    match e {
        Expr::Binary { right, .. } => *right,
        Expr::Logical { right, .. } => *right,
        _ => e,
    }
}

/// What an expression of the level of calls is built on: what is called, or
/// the object whose property is read.
pub open spec fn inner_of(e: Expr) -> Expr {
    match e {
        Expr::Call { callee, .. } => *callee,
        Expr::Get { object, .. } => *object,
        _ => e,
    }
}

/// An expression is not empty, lies within the tokens, and starts with a
/// token that starts an expression of its level.
pub proof fn lemma_span(tokens: Seq<Token>, level: int, start: int, e: Expr, end: int)
    requires
        derives(tokens, level, start, e, end),
    ensures
        0 <= start < end <= tokens.len(),
        starts_expression(tokens[start].token_type),
        level <= CALL ==> starts_primary(tokens[start].token_type),
    decreases e, level, 1int,
{
    if level <= PRIMARY {
        match e {
            Expr::Grouping { expr } => {
                lemma_span(tokens, ASSIGNMENT as int, start + 1, *expr, end - 1);
            },
            _ => {},
        }
    } else if level == CALL {
        match e {
            Expr::Call { callee, paren, arguments } => {
                let open = choose|open: int|
                    #[trigger] cut(open) && called_at(tokens, start, e, open, end);
                lemma_span(tokens, CALL as int, start, *callee, open);
                lemma_listed_span(tokens, open + 1, arguments@, arguments@.len() as int, end - 1);
            },
            Expr::Get { object, name } => {
                lemma_span(tokens, CALL as int, start, *object, end - 2);
            },
            _ => {
                lemma_span(tokens, PRIMARY as int, start, e, end);
            },
        }
    } else if level == UNARY {
        match e {
            Expr::Unary { operator, right } => {
                lemma_span(tokens, UNARY as int, start + 1, *right, end);
            },
            _ => {
                lemma_span(tokens, CALL as int, start, e, end);
            },
        }
    } else if level <= OR {
        if operation_of(level, e) {
            let at = choose|at: int|
                #[trigger] cut(at) && operated_at(tokens, level, start, e, at, end);
            match e {
                Expr::Binary { left, operator, right } => {
                    lemma_span(tokens, level, start, *left, at);
                    lemma_span(tokens, level - 1, at + 1, *right, end);
                },
                Expr::Logical { left, operator, right } => {
                    lemma_span(tokens, level, start, *left, at);
                    lemma_span(tokens, level - 1, at + 1, *right, end);
                },
                _ => {},
            }
        } else {
            lemma_span(tokens, level - 1, start, e, end);
        }
    } else {
        match e {
            Expr::Assign { name, value } => {
                lemma_span(tokens, ASSIGNMENT as int, start + 2, *value, end);
            },
            Expr::SetField { object, name, value } => {
                let dot = choose|dot: int| #[trigger] cut(dot) && set_at(tokens, start, e, dot, end);
                lemma_span(tokens, CALL as int, start, *object, dot);
                lemma_span(tokens, ASSIGNMENT as int, dot + 3, *value, end);
            },
            _ => {
                lemma_span(tokens, OR as int, start, e, end);
            },
        }
    }
}

/// A list of expressions lies within the tokens, and is empty only if it
/// has no expression.
pub proof fn lemma_listed_span(
    tokens: Seq<Token>,
    start: int,
    list: Seq<Expr>,
    count: int,
    end: int,
)
    requires
        listed(tokens, start, list, count, end),
    ensures
        start <= end,
        0 < count <= list.len() ==> 0 <= start < end <= tokens.len() && starts_expression(
            tokens[start].token_type,
        ),
    decreases list, count, 1int,
{
    if count <= 0 || count > list.len() {
    } else if count == 1 {
        lemma_span(tokens, ASSIGNMENT as int, start, list[0], end);
    } else {
        let comma = choose|comma: int|
            #[trigger] cut(comma) && listed_to(tokens, start, list, count, comma, end);
        lemma_listed_span(tokens, start, list, count - 1, comma);
        lemma_span(tokens, ASSIGNMENT as int, comma + 1, list[count - 1], end);
    }
}

/// The operators of one level carry on no expression of a tighter level,
/// and every expression of their own level and of the looser ones.
pub proof fn lemma_levels(level: int, kind: TokenType)
    requires
        operator_of(level, kind),
    ensures
        UNARY < level <= OR,
        !carries_on(level - 1, kind),
        forall|upper: int| level <= upper ==> carries_on(upper, kind),
{
}

/// The property of the object.
pub open spec fn got(object: Expr, name: Token) -> Expr {
    Expr::Get { object: Box::new(object), name }
}

/// Two expressions are alike: they are of the same form, hold the same
/// tokens and literals, and their parts are alike, the arguments of a call
/// one by one.
pub open spec fn alike(a: Expr, b: Expr) -> bool
    decreases a,
{
    match a {
        Expr::Assign { name, value } => match b {
            Expr::Assign { name: n, value: v } => name == n && alike(*value, *v),
            _ => false,
        },
        Expr::Binary { left, operator, right } => match b {
            Expr::Binary { left: l, operator: o, right: r } => operator == o && alike(*left, *l)
                && alike(*right, *r),
            _ => false,
        },
        Expr::Call { callee, paren, arguments } => match b {
            Expr::Call { callee: c, paren: p, arguments: others } => {
                &&& paren == p
                &&& alike(*callee, *c)
                &&& arguments@.len() == others@.len()
                &&& forall|i: int|
                    0 <= i < arguments@.len() ==> alike(#[trigger] arguments@[i], others@[i])
            },
            _ => false,
        },
        Expr::Get { object, name } => match b {
            Expr::Get { object: o, name: n } => name == n && alike(*object, *o),
            _ => false,
        },
        Expr::Grouping { expr } => match b {
            Expr::Grouping { expr: inner } => alike(*expr, *inner),
            _ => false,
        },
        Expr::Literal { value } => match b {
            Expr::Literal { value: v } => value == v,
            _ => false,
        },
        Expr::Variable { name } => match b {
            Expr::Variable { name: n } => name == n,
            _ => false,
        },
        Expr::Logical { left, operator, right } => match b {
            Expr::Logical { left: l, operator: o, right: r } => operator == o && alike(*left, *l)
                && alike(*right, *r),
            _ => false,
        },
        Expr::SetField { object, name, value } => match b {
            Expr::SetField { object: o, name: n, value: v } => name == n && alike(*object, *o)
                && alike(*value, *v),
            _ => false,
        },
        Expr::Super { keyword, method } => match b {
            Expr::Super { keyword: k, method: m } => keyword == k && method == m,
            _ => false,
        },
        Expr::This { keyword } => match b {
            Expr::This { keyword: k } => keyword == k,
            _ => false,
        },
        Expr::Unary { operator, right } => match b {
            Expr::Unary { operator: o, right: r } => operator == o && alike(*right, *r),
            _ => false,
        },
    }
}

/// The first `count` expressions of two lists are alike, one by one.
pub open spec fn alike_first(a: Seq<Expr>, b: Seq<Expr>, count: int) -> bool {
    forall|i: int| 0 <= i < count ==> alike(#[trigger] a[i], b[i])
}

/// The operator of an operation.
pub open spec fn operator_in(e: Expr) -> Option<Token> {
    match e {
        Expr::Binary { operator, .. } => Some(operator),
        Expr::Logical { operator, .. } => Some(operator),
        _ => None,
    }
}

/// Where the operator of an operation stands, with the left operand before
/// it and the right operand after it.
pub proof fn lemma_operands(tokens: Seq<Token>, level: int, start: int, e: Expr, end: int) -> (at:
    int)
    requires
        UNARY < level <= OR,
        derives(tokens, level, start, e, end),
        operation_of(level, e),
    ensures
        start < at,
        at + 1 < end,
        operator_at(tokens, level, at),
        operator_in(e) == Some(tokens[at]),
        derives(tokens, level, start, left_of(e), at),
        derives(tokens, level - 1, at + 1, right_of(e), end),
{
    let at = choose|at: int| #[trigger] cut(at) && operated_at(tokens, level, start, e, at, end);
    lemma_span(tokens, level, start, left_of(e), at);
    lemma_span(tokens, level - 1, at + 1, right_of(e), end);
    at
}

/// Two operations of a level with the same operator and like operands are
/// alike.
pub proof fn lemma_alike_operations(level: int, e1: Expr, e2: Expr)
    requires
        operation_of(level, e1),
        operation_of(level, e2),
        operator_in(e1) == operator_in(e2),
        alike(left_of(e1), left_of(e2)),
        alike(right_of(e1), right_of(e2)),
    ensures
        alike(e1, e2),
{
}

/// Where the last link of an expression of the level of calls starts: the
/// opening parenthesis of a call's arguments, or the dot before a property's
/// name.
pub proof fn lemma_link(tokens: Seq<Token>, start: int, e: Expr, end: int) -> (p: int)
    requires
        derives(tokens, CALL as int, start, e, end),
        e is Call || e is Get,
    ensures
        start < p < end,
        derives(tokens, CALL as int, start, inner_of(e), p),
        goes_on(tokens, CALL as int, p),
        e is Get ==> {
            &&& p == end - 2
            &&& is_at(tokens, p, TokenType::Dot)
            &&& is_at(tokens, p + 1, TokenType::Identifier)
            &&& tokens[p + 1] == e->Get_name
        },
        e is Call ==> {
            &&& is_at(tokens, p, TokenType::LeftParen)
            &&& listed(
                tokens,
                p + 1,
                e->Call_arguments@,
                e->Call_arguments@.len() as int,
                end - 1,
            )
            &&& is_at(tokens, end - 1, TokenType::RightParen)
            &&& tokens[end - 1] == e->Call_paren
            &&& e->Call_arguments@.len() <= 255
        },
{
    if e is Call {
        let open = choose|open: int| #[trigger] cut(open) && called_at(tokens, start, e, open, end);
        lemma_span(tokens, CALL as int, start, inner_of(e), open);
        lemma_listed_span(
            tokens,
            open + 1,
            e->Call_arguments@,
            e->Call_arguments@.len() as int,
            end - 1,
        );
        open
    } else {
        lemma_span(tokens, CALL as int, start, inner_of(e), end - 2);
        end - 2
    }
}

/// Every reading of an expression is the only one. Two expressions read at
/// one level from one token on either end at the same token, and then they
/// are alike, or the shorter one ends before a token that carries on an
/// expression of the level.
pub proof fn lemma_unique(
    tokens: Seq<Token>,
    level: int,
    start: int,
    e1: Expr,
    end1: int,
    e2: Expr,
    end2: int,
)
    requires
        PRIMARY <= level <= ASSIGNMENT,
        derives(tokens, level, start, e1, end1),
        derives(tokens, level, start, e2, end2),
        end1 <= end2,
    ensures
        end1 == end2 ==> alike(e1, e2),
        end1 < end2 ==> goes_on(tokens, level, end1),
    decreases tokens.len() - start, level, end1 + end2, 5int,
{
    lemma_span(tokens, level, start, e1, end1);
    lemma_span(tokens, level, start, e2, end2);
    if level == PRIMARY {
        lemma_unique_primary(tokens, start, e1, end1, e2, end2);
    } else if level == CALL {
        lemma_unique_call(tokens, start, e1, end1, e2, end2);
    } else if level == UNARY {
        lemma_unique_unary(tokens, start, e1, end1, e2, end2);
    } else if level <= OR {
        lemma_unique_operation(tokens, level, start, e1, end1, e2, end2);
    } else {
        lemma_unique_assignment(tokens, start, e1, end1, e2, end2);
    }
}

/// Two primary expressions read from one token on are alike and end at the
/// same token.
pub proof fn lemma_unique_primary(
    tokens: Seq<Token>,
    start: int,
    e1: Expr,
    end1: int,
    e2: Expr,
    end2: int,
)
    requires
        derives(tokens, PRIMARY as int, start, e1, end1),
        derives(tokens, PRIMARY as int, start, e2, end2),
    ensures
        alike(e1, e2),
        end1 == end2,
    decreases tokens.len() - start, PRIMARY as int, end1 + end2, 4int,
{
    lemma_span(tokens, PRIMARY as int, start, e1, end1);
    lemma_span(tokens, PRIMARY as int, start, e2, end2);
    match e1 {
        Expr::Grouping { expr: inner1 } => {
            match e2 {
                Expr::Grouping { expr: inner2 } => {
                    lemma_span(tokens, ASSIGNMENT as int, start + 1, *inner1, end1 - 1);
                    lemma_span(tokens, ASSIGNMENT as int, start + 1, *inner2, end2 - 1);
                    if end1 <= end2 {
                        lemma_unique(
                            tokens,
                            ASSIGNMENT as int,
                            start + 1,
                            *inner1,
                            end1 - 1,
                            *inner2,
                            end2 - 1,
                        );
                    } else {
                        lemma_unique(
                            tokens,
                            ASSIGNMENT as int,
                            start + 1,
                            *inner2,
                            end2 - 1,
                            *inner1,
                            end1 - 1,
                        );
                    }
                },
                _ => {},
            }
        },
        _ => {},
    }
}

/// A primary expression ends no later than an expression of the level of
/// calls that is read from the same token on.
proof fn lemma_apart_call(
    tokens: Seq<Token>,
    start: int,
    e: Expr,
    end: int,
    prev: Expr,
    p: int,
)
    requires
        derives(tokens, PRIMARY as int, start, e, end),
        derives(tokens, CALL as int, start, prev, p),
    ensures
        end <= p,
    decreases tokens.len() - start, CALL as int, end + p, 0int,
{
    lemma_span(tokens, PRIMARY as int, start, e, end);
    lemma_span(tokens, CALL as int, start, prev, p);
    if p >= end {
    } else if prev is Call || prev is Get {
        let q = lemma_link(tokens, start, prev, p);
        lemma_apart_call(tokens, start, e, end, inner_of(prev), q);
    } else {
        lemma_unique_primary(tokens, start, prev, p, e, end);
    }
}

/// Of two expressions of the level of calls read from one token on, the
/// longer one holds the link that follows the shorter one: a property's
/// name after a dot, or arguments in parentheses, which the lemma gives with
/// the index after them.
pub proof fn lemma_next_link(
    tokens: Seq<Token>,
    start: int,
    e1: Expr,
    end1: int,
    e2: Expr,
    end2: int,
) -> (w: (Seq<Expr>, int))
    requires
        derives(tokens, CALL as int, start, e1, end1),
        derives(tokens, CALL as int, start, e2, end2),
        end1 < end2,
    ensures
        goes_on(tokens, CALL as int, end1),
        is_at(tokens, end1, TokenType::Dot) ==> {
            &&& is_at(tokens, end1 + 1, TokenType::Identifier)
            &&& end1 + 2 == end2 || (end1 + 2 < end2 && goes_on(tokens, CALL as int, end1 + 2))
        },
        is_at(tokens, end1, TokenType::LeftParen) ==> {
            &&& listed(tokens, end1 + 1, w.0, w.0.len() as int, w.1 - 1)
            &&& is_at(tokens, w.1 - 1, TokenType::RightParen)
            &&& w.0.len() <= 255
            &&& w.1 == end2 || (w.1 < end2 && goes_on(tokens, CALL as int, w.1))
        },
    decreases tokens.len() - start, CALL as int, end1 + end2, 1int,
{
    lemma_span(tokens, CALL as int, start, e1, end1);
    lemma_span(tokens, CALL as int, start, e2, end2);
    if e2 is Call || e2 is Get {
        let p2 = lemma_link(tokens, start, e2, end2);
        if p2 == end1 {
            if e2 is Call {
                (e2->Call_arguments@, end2)
            } else {
                (Seq::empty(), 0)
            }
        } else if p2 > end1 {
            lemma_next_link(tokens, start, e1, end1, inner_of(e2), p2)
        } else {
            let w = lemma_next_link(tokens, start, inner_of(e2), p2, e1, end1);
            if e2 is Call {
                lemma_arguments_unique(
                    tokens,
                    p2 + 1,
                    e2->Call_arguments@,
                    end2 - 1,
                    w.0,
                    w.1 - 1,
                );
            }
            w
        }
    } else {
        lemma_apart_call(tokens, start, e2, end2, e1, end1);
        (Seq::empty(), 0)
    }
}

/// Two expressions of the level of calls read from one token on.
proof fn lemma_unique_call(
    tokens: Seq<Token>,
    start: int,
    e1: Expr,
    end1: int,
    e2: Expr,
    end2: int,
)
    requires
        derives(tokens, CALL as int, start, e1, end1),
        derives(tokens, CALL as int, start, e2, end2),
        end1 <= end2,
    ensures
        end1 == end2 ==> alike(e1, e2),
        end1 < end2 ==> goes_on(tokens, CALL as int, end1),
    decreases tokens.len() - start, CALL as int, end1 + end2, 4int,
{
    lemma_span(tokens, CALL as int, start, e1, end1);
    lemma_span(tokens, CALL as int, start, e2, end2);
    let chain1 = e1 is Call || e1 is Get;
    let chain2 = e2 is Call || e2 is Get;
    if !chain1 && !chain2 {
        lemma_unique_primary(tokens, start, e1, end1, e2, end2);
    } else if !chain1 {
        let p2 = lemma_link(tokens, start, e2, end2);
        if end1 <= p2 {
            lemma_unique(tokens, CALL as int, start, e1, end1, inner_of(e2), p2);
        } else {
            lemma_apart_call(tokens, start, e1, end1, inner_of(e2), p2);
        }
    } else if !chain2 {
        let p1 = lemma_link(tokens, start, e1, end1);
        lemma_apart_call(tokens, start, e2, end2, inner_of(e1), p1);
    } else {
        let p1 = lemma_link(tokens, start, e1, end1);
        let p2 = lemma_link(tokens, start, e2, end2);
        if p1 == p2 {
            lemma_unique(tokens, CALL as int, start, inner_of(e1), p1, inner_of(e2), p2);
            if e1 is Call {
                lemma_arguments_unique(
                    tokens,
                    p1 + 1,
                    e1->Call_arguments@,
                    end1 - 1,
                    e2->Call_arguments@,
                    end2 - 1,
                );
            }
        } else if p1 < p2 {
            let w = lemma_next_link(tokens, start, inner_of(e1), p1, inner_of(e2), p2);
            if e1 is Call {
                lemma_arguments_unique(
                    tokens,
                    p1 + 1,
                    e1->Call_arguments@,
                    end1 - 1,
                    w.0,
                    w.1 - 1,
                );
            }
            lemma_unique(tokens, CALL as int, start, e1, end1, inner_of(e2), p2);
        } else {
            let w = lemma_next_link(tokens, start, inner_of(e2), p2, inner_of(e1), p1);
            if e2 is Call {
                lemma_arguments_unique(
                    tokens,
                    p2 + 1,
                    e2->Call_arguments@,
                    end2 - 1,
                    w.0,
                    w.1 - 1,
                );
            }
        }
    }
}

/// Two expressions of the level of unary operators read from one token on.
proof fn lemma_unique_unary(
    tokens: Seq<Token>,
    start: int,
    e1: Expr,
    end1: int,
    e2: Expr,
    end2: int,
)
    requires
        derives(tokens, UNARY as int, start, e1, end1),
        derives(tokens, UNARY as int, start, e2, end2),
        end1 <= end2,
    ensures
        end1 == end2 ==> alike(e1, e2),
        end1 < end2 ==> goes_on(tokens, UNARY as int, end1),
    decreases tokens.len() - start, UNARY as int, end1 + end2, 4int,
{
    lemma_span(tokens, UNARY as int, start, e1, end1);
    lemma_span(tokens, UNARY as int, start, e2, end2);
    match e1 {
        Expr::Unary { operator: o1, right: r1 } => {
            match e2 {
                Expr::Unary { operator: o2, right: r2 } => {
                    lemma_span(tokens, UNARY as int, start + 1, *r1, end1);
                    lemma_unique(tokens, UNARY as int, start + 1, *r1, end1, *r2, end2);
                },
                _ => {
                    lemma_span(tokens, CALL as int, start, e2, end2);
                },
            }
        },
        _ => {
            match e2 {
                Expr::Unary { .. } => {
                    lemma_span(tokens, CALL as int, start, e1, end1);
                },
                _ => {
                    lemma_unique(tokens, CALL as int, start, e1, end1, e2, end2);
                },
            }
        },
    }
}

/// An expression of the next tighter level ends no later than an
/// expression of the level that is read from the same token on and has an
/// operator of the level after it.
proof fn lemma_apart(
    tokens: Seq<Token>,
    level: int,
    start: int,
    e: Expr,
    end: int,
    left: Expr,
    at: int,
)
    requires
        UNARY < level <= OR,
        derives(tokens, level - 1, start, e, end),
        derives(tokens, level, start, left, at),
        operator_at(tokens, level, at),
    ensures
        end <= at,
    decreases tokens.len() - start, level, end + at, 0int,
{
    lemma_span(tokens, level - 1, start, e, end);
    lemma_span(tokens, level, start, left, at);
    if at >= end {
    } else if operation_of(level, left) {
        let before = lemma_operands(tokens, level, start, left, at);
        lemma_apart(tokens, level, start, e, end, left_of(left), before);
    } else {
        lemma_unique(tokens, level - 1, start, left, at, e, end);
        lemma_levels(level, tokens[at].token_type);
    }
}

/// Of two expressions of a level of operations read from one token on,
/// where an operator of the level follows the shorter one, the longer one
/// holds the operand that follows that operator: the lemma gives it with
/// the index where it ends, which is the end of the longer expression or
/// the index of another operator of the level.
pub proof fn lemma_next_operand(
    tokens: Seq<Token>,
    level: int,
    start: int,
    e1: Expr,
    end1: int,
    e2: Expr,
    end2: int,
) -> (w: (Expr, int))
    requires
        UNARY < level <= OR,
        derives(tokens, level, start, e1, end1),
        derives(tokens, level, start, e2, end2),
        end1 < end2,
        operator_at(tokens, level, end1),
    ensures
        derives(tokens, level - 1, end1 + 1, w.0, w.1),
        w.1 <= end2,
        w.1 == end2 || operator_at(tokens, level, w.1),
    decreases tokens.len() - start, level, end1 + end2, 1int,
{
    lemma_span(tokens, level, start, e1, end1);
    lemma_span(tokens, level, start, e2, end2);
    if operation_of(level, e2) {
        let at2 = lemma_operands(tokens, level, start, e2, end2);
        if at2 == end1 {
            (right_of(e2), end2)
        } else if at2 > end1 {
            lemma_next_operand(tokens, level, start, e1, end1, left_of(e2), at2)
        } else {
            let w = lemma_next_operand(tokens, level, start, left_of(e2), at2, e1, end1);
            lemma_span(tokens, level - 1, at2 + 1, w.0, w.1);
            lemma_unique(tokens, level - 1, at2 + 1, w.0, w.1, right_of(e2), end2);
            lemma_levels(level, tokens[w.1].token_type);
            w
        }
    } else {
        lemma_apart(tokens, level, start, e2, end2, e1, end1);
        (e1, end1)
    }
}

/// Two expressions of a level of operations read from one token on.
proof fn lemma_unique_operation(
    tokens: Seq<Token>,
    level: int,
    start: int,
    e1: Expr,
    end1: int,
    e2: Expr,
    end2: int,
)
    requires
        UNARY < level <= OR,
        derives(tokens, level, start, e1, end1),
        derives(tokens, level, start, e2, end2),
        end1 <= end2,
    ensures
        end1 == end2 ==> alike(e1, e2),
        end1 < end2 ==> goes_on(tokens, level, end1),
    decreases tokens.len() - start, level, end1 + end2, 4int,
{
    lemma_span(tokens, level, start, e1, end1);
    lemma_span(tokens, level, start, e2, end2);
    let op1 = operation_of(level, e1);
    let op2 = operation_of(level, e2);
    if !op1 && !op2 {
        lemma_unique(tokens, level - 1, start, e1, end1, e2, end2);
    } else if !op1 {
        let at2 = lemma_operands(tokens, level, start, e2, end2);
        if end1 <= at2 {
            lemma_unique(tokens, level, start, e1, end1, left_of(e2), at2);
            lemma_levels(level, tokens[at2].token_type);
        } else {
            lemma_apart(tokens, level, start, e1, end1, left_of(e2), at2);
        }
    } else if !op2 {
        let at1 = lemma_operands(tokens, level, start, e1, end1);
        lemma_apart(tokens, level, start, e2, end2, left_of(e1), at1);
    } else {
        let at1 = lemma_operands(tokens, level, start, e1, end1);
        let at2 = lemma_operands(tokens, level, start, e2, end2);
        if at1 == at2 {
            lemma_unique(tokens, level, start, left_of(e1), at1, left_of(e2), at2);
            lemma_unique(tokens, level - 1, at1 + 1, right_of(e1), end1, right_of(e2), end2);
            if end1 == end2 {
                lemma_alike_operations(level, e1, e2);
            }
        } else if at1 < at2 {
            let w = lemma_next_operand(tokens, level, start, left_of(e1), at1, left_of(e2), at2);
            lemma_span(tokens, level - 1, at1 + 1, w.0, w.1);
            lemma_levels(level, tokens[w.1].token_type);
            if w.1 <= end1 {
                lemma_unique(tokens, level - 1, at1 + 1, w.0, w.1, right_of(e1), end1);
            } else {
                lemma_unique(tokens, level - 1, at1 + 1, right_of(e1), end1, w.0, w.1);
            }
        } else {
            let w = lemma_next_operand(tokens, level, start, left_of(e2), at2, left_of(e1), at1);
            lemma_span(tokens, level - 1, at2 + 1, w.0, w.1);
            lemma_levels(level, tokens[w.1].token_type);
            lemma_unique(tokens, level - 1, at2 + 1, w.0, w.1, right_of(e2), end2);
        }
    }
}

/// A variable read at the level of `or`.
pub proof fn lemma_variable(tokens: Seq<Token>, start: int) -> (e: Expr)
    requires
        is_at(tokens, start, TokenType::Identifier),
    ensures
        e is Variable,
        derives(tokens, CALL as int, start, e, start + 1),
        derives(tokens, OR as int, start, e, start + 1),
{
    let e = Expr::Variable { name: tokens[start] };
    assert(derives(tokens, PRIMARY as int, start, e, start + 1));
    lemma_lift(tokens, PRIMARY as int, CALL as int, start, e, start + 1);
    lemma_lift(tokens, PRIMARY as int, OR as int, start, e, start + 1);
    e
}

/// A property read at the level of `or`.
pub proof fn lemma_property(tokens: Seq<Token>, start: int, object: Expr, dot: int) -> (e: Expr)
    requires
        derives(tokens, CALL as int, start, object, dot),
        is_at(tokens, dot, TokenType::Dot),
        is_at(tokens, dot + 1, TokenType::Identifier),
    ensures
        e is Get,
        derives(tokens, OR as int, start, e, dot + 2),
{
    let e = got(object, tokens[dot + 1]);
    assert(derives(tokens, CALL as int, start, e, dot + 2));
    lemma_lift(tokens, CALL as int, OR as int, start, e, dot + 2);
    e
}

/// Where an assignment to a property has its dot.
pub proof fn lemma_set(tokens: Seq<Token>, start: int, e: Expr, end: int) -> (dot: int)
    requires
        derives(tokens, ASSIGNMENT as int, start, e, end),
        e is SetField,
    ensures
        start < dot,
        dot + 3 < end,
        derives(tokens, CALL as int, start, *e->SetField_object, dot),
        is_at(tokens, dot, TokenType::Dot),
        is_at(tokens, dot + 1, TokenType::Identifier),
        tokens[dot + 1] == e->SetField_name,
        is_at(tokens, dot + 2, TokenType::Equal),
        derives(tokens, ASSIGNMENT as int, dot + 3, *e->SetField_value, end),
{
    let dot = choose|dot: int| #[trigger] cut(dot) && set_at(tokens, start, e, dot, end);
    lemma_span(tokens, CALL as int, start, *e->SetField_object, dot);
    lemma_span(tokens, ASSIGNMENT as int, dot + 3, *e->SetField_value, end);
    dot
}

/// What is read from a variable with a `=` after it is an assignment to
/// the variable.
pub proof fn lemma_assigned(tokens: Seq<Token>, start: int, e: Expr, end: int)
    requires
        is_at(tokens, start, TokenType::Identifier),
        is_at(tokens, start + 1, TokenType::Equal),
        derives(tokens, ASSIGNMENT as int, start, e, end),
    ensures
        e is Assign,
    decreases tokens.len() - start, ASSIGNMENT as int, 0int, 3int,
{
    lemma_span(tokens, ASSIGNMENT as int, start, e, end);
    let var = lemma_variable(tokens, start);
    if e is Assign {
    } else if e is SetField {
        let dot = lemma_set(tokens, start, e, end);
        lemma_unique(tokens, CALL as int, start, var, start + 1, *e->SetField_object, dot);
    } else {
        lemma_unique(tokens, OR as int, start, var, start + 1, e, end);
    }
}

/// Two expressions read from one token on.
proof fn lemma_unique_assignment(
    tokens: Seq<Token>,
    start: int,
    e1: Expr,
    end1: int,
    e2: Expr,
    end2: int,
)
    requires
        derives(tokens, ASSIGNMENT as int, start, e1, end1),
        derives(tokens, ASSIGNMENT as int, start, e2, end2),
        end1 <= end2,
    ensures
        end1 == end2 ==> alike(e1, e2),
        end1 < end2 ==> goes_on(tokens, ASSIGNMENT as int, end1),
    decreases tokens.len() - start, ASSIGNMENT as int, end1 + end2, 4int,
{
    lemma_span(tokens, ASSIGNMENT as int, start, e1, end1);
    lemma_span(tokens, ASSIGNMENT as int, start, e2, end2);
    if e1 is Assign || e2 is Assign {
        if !(e1 is Assign) {
            lemma_assigned(tokens, start, e1, end1);
        } else if !(e2 is Assign) {
            lemma_assigned(tokens, start, e2, end2);
        } else {
            lemma_span(tokens, ASSIGNMENT as int, start + 2, *e1->Assign_value, end1);
            lemma_unique(
                tokens,
                ASSIGNMENT as int,
                start + 2,
                *e1->Assign_value,
                end1,
                *e2->Assign_value,
                end2,
            );
        }
    } else if e1 is SetField {
        let dot1 = lemma_set(tokens, start, e1, end1);
        if e2 is SetField {
            let dot2 = lemma_set(tokens, start, e2, end2);
            if dot1 == dot2 {
                lemma_unique(
                    tokens,
                    CALL as int,
                    start,
                    *e1->SetField_object,
                    dot1,
                    *e2->SetField_object,
                    dot2,
                );
                lemma_unique(
                    tokens,
                    ASSIGNMENT as int,
                    dot1 + 3,
                    *e1->SetField_value,
                    end1,
                    *e2->SetField_value,
                    end2,
                );
            } else if dot1 < dot2 {
                lemma_next_link(
                    tokens,
                    start,
                    *e1->SetField_object,
                    dot1,
                    *e2->SetField_object,
                    dot2,
                );
            } else {
                lemma_next_link(
                    tokens,
                    start,
                    *e2->SetField_object,
                    dot2,
                    *e1->SetField_object,
                    dot1,
                );
            }
        } else {
            let g = lemma_property(tokens, start, *e1->SetField_object, dot1);
            lemma_unique(tokens, OR as int, start, g, dot1 + 2, e2, end2);
        }
    } else if e2 is SetField {
        let dot2 = lemma_set(tokens, start, e2, end2);
        if end1 <= dot2 {
            lemma_lift(tokens, CALL as int, OR as int, start, *e2->SetField_object, dot2);
            lemma_unique(tokens, OR as int, start, e1, end1, *e2->SetField_object, dot2);
        } else {
            let g = lemma_property(tokens, start, *e2->SetField_object, dot2);
            if end1 == dot2 + 1 {
                lemma_unique(tokens, OR as int, start, e1, end1, g, dot2 + 2);
            } else {
                lemma_unique(tokens, OR as int, start, g, dot2 + 2, e1, end1);
            }
        }
    } else {
        lemma_unique(tokens, OR as int, start, e1, end1, e2, end2);
    }
}

/// An expression ends no later than a list of expressions that is read
/// from the same token on and has a comma after it.
proof fn lemma_apart_listed(
    tokens: Seq<Token>,
    start: int,
    e: Expr,
    end: int,
    list: Seq<Expr>,
    count: int,
    m: int,
)
    requires
        derives(tokens, ASSIGNMENT as int, start, e, end),
        listed(tokens, start, list, count, m),
        0 < count <= list.len(),
        is_at(tokens, m, TokenType::Comma),
    ensures
        end <= m,
    decreases tokens.len() - start, 10int, end + m, 0int,
{
    lemma_span(tokens, ASSIGNMENT as int, start, e, end);
    lemma_listed_span(tokens, start, list, count, m);
    if m >= end {
    } else if count > 1 {
        let comma = lemma_last_listed(tokens, start, list, count, m);
        lemma_apart_listed(tokens, start, e, end, list, count - 1, comma);
    } else {
        lemma_unique(tokens, ASSIGNMENT as int, start, list[0], m, e, end);
    }
}

/// Where the comma before the last expression of a list stands.
pub proof fn lemma_last_listed(
    tokens: Seq<Token>,
    start: int,
    list: Seq<Expr>,
    count: int,
    end: int,
) -> (comma: int)
    requires
        listed(tokens, start, list, count, end),
        1 < count <= list.len(),
    ensures
        start < comma,
        comma + 1 < end,
        listed(tokens, start, list, count - 1, comma),
        is_at(tokens, comma, TokenType::Comma),
        derives(tokens, ASSIGNMENT as int, comma + 1, list[count - 1], end),
{
    let comma = choose|comma: int|
        #[trigger] cut(comma) && listed_to(tokens, start, list, count, comma, end);
    lemma_listed_span(tokens, start, list, count - 1, comma);
    lemma_span(tokens, ASSIGNMENT as int, comma + 1, list[count - 1], end);
    comma
}

/// Of two lists of expressions read from one token on, where a comma
/// follows the shorter one, the longer one holds the expression that
/// follows that comma: the lemma gives it with the index where it ends,
/// which is the end of the longer list or the index of another comma.
pub proof fn lemma_next_listed(
    tokens: Seq<Token>,
    start: int,
    l1: Seq<Expr>,
    k1: int,
    m1: int,
    l2: Seq<Expr>,
    k2: int,
    m2: int,
) -> (w: (Expr, int))
    requires
        listed(tokens, start, l1, k1, m1),
        listed(tokens, start, l2, k2, m2),
        0 < k1 <= l1.len(),
        0 < k2 <= l2.len(),
        m1 < m2,
        is_at(tokens, m1, TokenType::Comma),
    ensures
        derives(tokens, ASSIGNMENT as int, m1 + 1, w.0, w.1),
        w.1 <= m2,
        w.1 == m2 || is_at(tokens, w.1, TokenType::Comma),
    decreases tokens.len() - start, 10int, m1 + m2, 1int,
{
    lemma_listed_span(tokens, start, l1, k1, m1);
    lemma_listed_span(tokens, start, l2, k2, m2);
    if k2 > 1 {
        let c2 = lemma_last_listed(tokens, start, l2, k2, m2);
        if c2 == m1 {
            (l2[k2 - 1], m2)
        } else if c2 > m1 {
            lemma_next_listed(tokens, start, l1, k1, m1, l2, k2 - 1, c2)
        } else {
            let w = lemma_next_listed(tokens, start, l2, k2 - 1, c2, l1, k1, m1);
            lemma_span(tokens, ASSIGNMENT as int, c2 + 1, w.0, w.1);
            lemma_unique(tokens, ASSIGNMENT as int, c2 + 1, w.0, w.1, l2[k2 - 1], m2);
            w
        }
    } else {
        lemma_apart_listed(tokens, start, l2[0], m2, l1, k1, m1);
        (l2[0], m2)
    }
}

/// Two lists of expressions read from one token on either end at the same
/// token, and then they are as long and alike, or the one that ends first
/// ends before a token that carries on an expression, or before a comma, and
/// then it has fewer expressions.
pub proof fn lemma_listed_unique(
    tokens: Seq<Token>,
    start: int,
    l1: Seq<Expr>,
    k1: int,
    m1: int,
    l2: Seq<Expr>,
    k2: int,
    m2: int,
)
    requires
        listed(tokens, start, l1, k1, m1),
        listed(tokens, start, l2, k2, m2),
        0 < k1 <= l1.len(),
        0 < k2 <= l2.len(),
        m1 <= m2,
    ensures
        m1 == m2 ==> k1 == k2 && alike_first(l1, l2, k1),
        m1 < m2 ==> goes_on(tokens, ASSIGNMENT as int, m1) || (is_at(tokens, m1, TokenType::Comma)
            && k1 < k2),
    decreases tokens.len() - start, 10int, m1 + m2, 4int,
{
    lemma_listed_span(tokens, start, l1, k1, m1);
    lemma_listed_span(tokens, start, l2, k2, m2);
    if k1 == 1 && k2 == 1 {
        lemma_unique(tokens, ASSIGNMENT as int, start, l1[0], m1, l2[0], m2);
    } else if k1 == 1 {
        let c2 = lemma_last_listed(tokens, start, l2, k2, m2);
        if m1 <= c2 {
            lemma_listed_unique(tokens, start, l1, k1, m1, l2, k2 - 1, c2);
        } else {
            lemma_apart_listed(tokens, start, l1[0], m1, l2, k2 - 1, c2);
        }
    } else if k2 == 1 {
        let c1 = lemma_last_listed(tokens, start, l1, k1, m1);
        lemma_apart_listed(tokens, start, l2[0], m2, l1, k1 - 1, c1);
    } else {
        let c1 = lemma_last_listed(tokens, start, l1, k1, m1);
        let c2 = lemma_last_listed(tokens, start, l2, k2, m2);
        if c1 == c2 {
            lemma_listed_unique(tokens, start, l1, k1 - 1, c1, l2, k2 - 1, c2);
            lemma_unique(tokens, ASSIGNMENT as int, c1 + 1, l1[k1 - 1], m1, l2[k2 - 1], m2);
        } else if c1 < c2 {
            let w = lemma_next_listed(tokens, start, l1, k1 - 1, c1, l2, k2 - 1, c2);
            lemma_listed_unique(tokens, start, l1, k1 - 1, c1, l2, k2 - 1, c2);
            lemma_span(tokens, ASSIGNMENT as int, c1 + 1, w.0, w.1);
            if w.1 <= m1 {
                lemma_unique(tokens, ASSIGNMENT as int, c1 + 1, w.0, w.1, l1[k1 - 1], m1);
            } else {
                lemma_unique(tokens, ASSIGNMENT as int, c1 + 1, l1[k1 - 1], m1, w.0, w.1);
            }
        } else {
            let w = lemma_next_listed(tokens, start, l2, k2 - 1, c2, l1, k1 - 1, c1);
            lemma_span(tokens, ASSIGNMENT as int, c2 + 1, w.0, w.1);
            lemma_unique(tokens, ASSIGNMENT as int, c2 + 1, w.0, w.1, l2[k2 - 1], m2);
        }
    }
}

/// Two lists of arguments read from one token on, each up to a closing
/// parenthesis, are as long and alike, and end at the same token.
pub proof fn lemma_arguments_unique(
    tokens: Seq<Token>,
    start: int,
    l1: Seq<Expr>,
    m1: int,
    l2: Seq<Expr>,
    m2: int,
)
    requires
        listed(tokens, start, l1, l1.len() as int, m1),
        is_at(tokens, m1, TokenType::RightParen),
        listed(tokens, start, l2, l2.len() as int, m2),
        is_at(tokens, m2, TokenType::RightParen),
    ensures
        m1 == m2,
        l1.len() == l2.len(),
        alike_first(l1, l2, l1.len() as int),
    decreases tokens.len() - start, 10int, m1 + m2, 5int,
{
    let k1 = l1.len() as int;
    let k2 = l2.len() as int;
    lemma_listed_span(tokens, start, l1, k1, m1);
    lemma_listed_span(tokens, start, l2, k2, m2);
    if k1 > 0 && k2 > 0 {
        if m1 <= m2 {
            lemma_listed_unique(tokens, start, l1, k1, m1, l2, k2, m2);
        } else {
            lemma_listed_unique(tokens, start, l2, k2, m2, l1, k1, m1);
        }
    }
}


/// Two expressions read from one token on, neither with a token after it
/// that carries on an expression, are alike and end at the same token.
pub proof fn lemma_whole(
    tokens: Seq<Token>,
    start: int,
    e1: Expr,
    end1: int,
    e2: Expr,
    end2: int,
)
    requires
        derives(tokens, ASSIGNMENT as int, start, e1, end1),
        derives(tokens, ASSIGNMENT as int, start, e2, end2),
        !goes_on(tokens, ASSIGNMENT as int, end1),
        !goes_on(tokens, ASSIGNMENT as int, end2),
    ensures
        end1 == end2,
        alike(e1, e2),
{
    if end1 <= end2 {
        lemma_unique(tokens, ASSIGNMENT as int, start, e1, end1, e2, end2);
    } else {
        lemma_unique(tokens, ASSIGNMENT as int, start, e2, end2, e1, end1);
    }
}

} // verus!
